use zb_trainer::cube::CubeState;
use zb_trainer::moves::{moves_eq, MoveSet};
use zb_trainer::normalize::{known_status, zbll_outcome, zbls_outcome, KnownStatus, ZbllOutcome, parse_and_canon, same_case, strip_auf, strip_auf_start, zbll_canonical, zbls_canonical, ZbllCase, ZblsCase};
use zb_trainer::lex::{bytes_equal, lex_less_vec};
use zb_trainer::parse::{is_auf, is_rotation, is_u_family, parse_alg, ParseError};

fn same_state(ms: &MoveSet, a: &[zb_trainer::moves::FaceMove], b: &[zb_trainer::moves::FaceMove]) -> bool {
    let _ = ms;
    let s = CubeState::solved().apply(&ms.f).apply(&ms.r);
    s.apply_alg(a) == s.apply_alg(b)
}

#[test]
fn parse_plain_faces() {
    let ms = MoveSet::build();
    let moves = parse_alg("R U R'", &ms).unwrap();
    assert_eq!(moves.len(), 3);
    assert_eq!(moves[0].cp, ms.r.cp);
    assert_eq!(moves[1].cp, ms.u.cp);
    assert_eq!(moves[2].cp, ms.rp.cp);
    assert_eq!(moves[2].co, ms.rp.co);
}

#[test]
fn parse_double_and_prime_suffixes() {
    let ms = MoveSet::build();
    let a = parse_alg("U2", &ms).unwrap();
    assert_eq!(a.len(), 2);
    assert!(same_state(&ms, &a, &[ms.u2]));
    let b = parse_alg("U2'", &ms).unwrap();
    assert!(same_state(&ms, &b, &[ms.u2]));
    let c = parse_alg("F'", &ms).unwrap();
    assert!(same_state(&ms, &c, &[ms.fp]));
}

#[test]
fn parse_splits_on_any_whitespace() {
    let ms = MoveSet::build();
    let a = parse_alg("  R\tU\nR'  ", &ms).unwrap();
    let b = parse_alg("R U R'", &ms).unwrap();
    assert!(same_state(&ms, &a, &b));
    assert!(parse_alg("", &ms).unwrap().is_empty());
    assert!(parse_alg(" \u{3000} ", &ms).unwrap().is_empty());
}

#[test]
fn parse_drops_the_net_rotation() {
    let ms = MoveSet::build();
    assert!(parse_alg("y", &ms).unwrap().is_empty());
    // y R y' is one fixed-frame face turn, with the same effect as the
    // three moves taken literally.
    let conj = parse_alg("y R y'", &ms).unwrap();
    assert_eq!(conj.len(), 1);
    assert!(same_state(&ms, &conj, &[ms.y, ms.r, ms.yp]));
    // r = x L: the face turn L stays, the rotation x is dropped.
    let r = parse_alg("r", &ms).unwrap();
    assert_eq!(r.len(), 1);
    assert!(moves_eq(&r[0], &ms.l));
    // U after x is the fixed-frame F.
    let xu = parse_alg("x U", &ms).unwrap();
    assert_eq!(xu.len(), 1);
    assert!(moves_eq(&xu[0], &ms.f));
}

#[test]
fn parse_wide_and_slice_moves_match_literal_meaning() {
    let ms = MoveSet::build();
    // r = x L as whole-cube moves: the parsed turns followed by the dropped
    // rotation x.
    let mut r = parse_alg("r", &ms).unwrap();
    let rw = parse_alg("Rw", &ms).unwrap();
    assert!(same_state(&ms, &rw, &r));
    r.push(ms.x);
    assert!(same_state(&ms, &r, &[ms.x, ms.l]));
    // M = L' x' R, net rotation x'.
    let mut m = parse_alg("M", &ms).unwrap();
    m.push(ms.xp);
    assert!(same_state(&ms, &m, &[ms.lp, ms.xp, ms.r]));
}

#[test]
fn parse_big_cube_token_is_an_error() {
    let ms = MoveSet::build();
    assert!(matches!(parse_alg("R 3Rw U", &ms), Err(ParseError::BigCube)));
    // Big-cube notation anywhere wins over an unknown token.
    assert!(matches!(parse_alg("Q 3r", &ms), Err(ParseError::BigCube)));
    assert!(matches!(parse_alg("3r Q", &ms), Err(ParseError::BigCube)));
    assert!(matches!(parse_alg("Q R 4r", &ms), Err(ParseError::BigCube)));
}

#[test]
fn parse_unknown_tokens_name_the_core() {
    let ms = MoveSet::build();
    match parse_alg("R Q", &ms) {
        Err(ParseError::Unknown(msg)) => assert_eq!(msg, "Q wide=false"),
        other => panic!("unexpected {:?}", other.map(|v| v.len())),
    }
    match parse_alg("Mw", &ms) {
        Err(ParseError::Unknown(msg)) => assert_eq!(msg, "M wide=true"),
        other => panic!("unexpected {:?}", other.map(|v| v.len())),
    }
    match parse_alg("Rww", &ms) {
        Err(ParseError::Unknown(msg)) => assert_eq!(msg, "Rw wide=true"),
        other => panic!("unexpected {:?}", other.map(|v| v.len())),
    }
    match parse_alg("R '2", &ms) {
        Err(ParseError::Unknown(msg)) => assert_eq!(msg, "'2"),
        other => panic!("unexpected {:?}", other.map(|v| v.len())),
    }
    // Without big-cube notation, the first failing token decides.
    match parse_alg("R Q Mw", &ms) {
        Err(ParseError::Unknown(msg)) => assert_eq!(msg, "Q wide=false"),
        other => panic!("unexpected {:?}", other.map(|v| v.len())),
    }
}

#[test]
fn move_families() {
    let ms = MoveSet::build();
    assert!(is_u_family(&ms.u2, &ms));
    assert!(!is_u_family(&ms.d, &ms));
    assert!(is_rotation(&ms.zp, &ms));
    assert!(!is_rotation(&ms.u, &ms));
    assert!(is_auf(&ms.up, &ms));
    assert!(is_auf(&ms.x2, &ms));
    assert!(!is_auf(&ms.r, &ms));
}

#[test]
fn strip_removes_leading_auf_and_trailing_u() {
    let ms = MoveSet::build();
    let moves = vec![ms.u, ms.y, ms.r, ms.u, ms.rp, ms.u2, ms.up];
    let core = strip_auf(&moves, &ms);
    assert_eq!(core.len(), 3);
    assert_eq!(core[0].cp, ms.r.cp);
    assert_eq!(core[2].cp, ms.rp.cp);
    let start = strip_auf_start(&moves, &ms);
    assert_eq!(start.len(), 5);
    let all_auf = vec![ms.u, ms.x, ms.u2];
    assert!(strip_auf(&all_auf, &ms).is_empty());
    assert_eq!(strip_auf_start(&all_auf, &ms).len(), 0);
}

#[test]
fn zbll_of_the_empty_alg_is_the_solved_layer() {
    let ms = MoveSet::build();
    let rots = ms.cube_rotations();
    let (case, oriented) = zbll_canonical(&[], &rots).unwrap();
    assert_eq!(case, ZbllCase(vec![0, 0, 1, 0, 2, 0, 3, 0, 0, 0, 1, 0, 2, 0, 3, 0]));
    assert!(oriented);
}

#[test]
fn zbll_rejects_algs_that_break_f2l() {
    let ms = MoveSet::build();
    let rots = ms.cube_rotations();
    let moves = parse_alg("R U", &ms).unwrap();
    assert!(zbll_canonical(&moves, &rots).is_none());
    assert!(parse_and_canon(&ms, &rots, "R U").is_none());
    assert!(parse_and_canon(&ms, &rots, "U y U2").is_none());
    assert!(parse_and_canon(&ms, &rots, "4r U").is_none());
}

#[test]
fn zbll_classifies_last_layer_algs() {
    let ms = MoveSet::build();
    let rots = ms.cube_rotations();
    let solved_layer = ZbllCase(vec![0, 0, 1, 0, 2, 0, 3, 0, 0, 0, 1, 0, 2, 0, 3, 0]);
    for alg in ["R U R' U R U2 R'", "R U R' U' R' F R2 U' R' U' R U R' F'", "M2 U M2 U2 M2 U M2"] {
        let moves = parse_alg(alg, &ms).unwrap();
        let core = strip_auf(&moves, &ms);
        let (case, oriented) = zbll_canonical(core, &rots).unwrap();
        assert!(oriented);
        assert_ne!(case, solved_layer);
        assert_eq!(parse_and_canon(&ms, &rots, alg), Some(case));
    }
}

#[test]
fn zbls_of_the_empty_alg() {
    assert_eq!(zbls_canonical(&[]), ZblsCase(vec![0, 0, 0, 0, 4, 0, 8, 0]));
}

#[test]
fn zbls_ignores_pre_auf() {
    let ms = MoveSet::build();
    let a = parse_alg("R U R'", &ms).unwrap();
    let b = parse_alg("U R U R'", &ms).unwrap();
    let c = parse_alg("U2 R U R'", &ms).unwrap();
    assert_eq!(zbls_canonical(strip_auf_start(&a, &ms)), zbls_canonical(strip_auf_start(&b, &ms)));
    // A U turn before the alg only turns the last layer the case is read from.
    let zb = zbls_canonical(&b);
    let zc = zbls_canonical(&c);
    assert_eq!(zb, zc);
}

#[test]
fn leading_u_turn_keeps_case() {
    let ms = MoveSet::build();
    let rots = ms.cube_rotations();
    let base = parse_and_canon(&ms, &rots, "R U R' U R U2 R'");
    assert!(base.is_some());
    for prefix in ["U", "U'", "U2"] {
        let alg = format!("{prefix} R U R' U R U2 R'");
        assert_eq!(parse_and_canon(&ms, &rots, &alg), base);
    }
    assert_eq!(parse_and_canon(&ms, &rots, "U' Q"), None);
}

#[test]
fn trailing_u_turn_keeps_case_without_net_rotation() {
    let ms = MoveSet::build();
    let rots = ms.cube_rotations();
    let base = parse_and_canon(&ms, &rots, "R U2 R' U' R U' R'");
    for suffix in ["U", "U'", "U2"] {
        let alg = format!("R U2 R' U' R U' R' {suffix}");
        assert_eq!(parse_and_canon(&ms, &rots, &alg), base);
    }
    // With a net rotation left over, the trailing turn is no longer an AUF.
    let rotated = parse_and_canon(&ms, &rots, "R U R' U R U2 R' x");
    assert!(rotated.is_some());
    assert_ne!(parse_and_canon(&ms, &rots, "R U R' U R U2 R' x U'"), rotated);
}

#[test]
fn same_case_spot_checks() {
    let ms = MoveSet::build();
    let rots = ms.cube_rotations();
    // A pre-AUF does not change the case.
    assert!(same_case(&ms, &rots, "F R' F' r U R U' r'", "U' F R' F' r U R U' r'"));
    // Sune and AntiSune are different cases.
    assert!(!same_case(&ms, &rots, "R U R' U R U2 R'", "R U2 R' U' R U' R'"));
    // Two strings without a case count as the same; one with and one without do not.
    assert!(same_case(&ms, &rots, "4r U", "Q"));
    assert!(!same_case(&ms, &rots, "Q", "R U R' U R U2 R'"));
}

#[test]
fn byte_order_and_equality() {
    let a: Vec<u8> = vec![1, 2, 3];
    let b: Vec<u8> = vec![1, 2, 4];
    let c: Vec<u8> = vec![1, 2];
    assert!(bytes_equal(&a, &a.clone()));
    assert!(!bytes_equal(&a, &b));
    assert!(!bytes_equal(&a, &c));
    assert!(lex_less_vec(&a, &b));
    assert!(!lex_less_vec(&b, &a));
    assert!(lex_less_vec(&c, &a));
    assert!(!lex_less_vec(&a, &a));
}

#[test]
fn parsing_a_concatenation() {
    let ms = MoveSet::build();
    let s = parse_alg("R U' F2", &ms).unwrap();
    let t = parse_alg("r U M'", &ms).unwrap();
    let st = parse_alg("R U' F2 r U M'", &ms).unwrap();
    assert_eq!(st.len(), s.len() + t.len());
    for (i, m) in s.iter().chain(t.iter()).enumerate() {
        assert!(moves_eq(&st[i], m));
    }
    match parse_alg("R U' F2 Qw", &ms) {
        Err(ParseError::Unknown(msg)) => assert_eq!(msg, "Q wide=true"),
        other => panic!("unexpected {:?}", other.map(|v| v.len())),
    }
    assert!(matches!(parse_alg("R U' 5u", &ms), Err(ParseError::BigCube)));
}

#[test]
fn zbll_outcomes_of_records() {
    let ms = MoveSet::build();
    let rots = ms.cube_rotations();
    assert!(matches!(zbll_outcome(&ms, &rots, "Q 3r"), ZbllOutcome::BigCube));
    match zbll_outcome(&ms, &rots, "R Q") {
        ZbllOutcome::Unknown(msg) => assert_eq!(msg, "Q wide=false"),
        _ => panic!("expected an unknown token"),
    }
    assert!(matches!(zbll_outcome(&ms, &rots, "U y U2"), ZbllOutcome::NotLastLayer));
    assert!(matches!(zbll_outcome(&ms, &rots, "R U"), ZbllOutcome::NotLastLayer));
    let sune = parse_and_canon(&ms, &rots, "R U R' U R U2 R'").unwrap();
    match zbll_outcome(&ms, &rots, "U R U R' U R U2 R'") {
        ZbllOutcome::Case(case, _) => assert_eq!(case, sune),
        _ => panic!("expected a case"),
    }
    // An OLL algorithm that leaves the last-layer edges flipped.
    match zbll_outcome(&ms, &rots, "F R U R' U' F'") {
        ZbllOutcome::Case(_, oriented) => assert!(!oriented),
        _ => panic!("expected a case"),
    }
}

#[test]
fn known_cases_against_the_data() {
    let ms = MoveSet::build();
    let rots = ms.cube_rotations();
    let sune = parse_and_canon(&ms, &rots, "R U R' U R U2 R'").unwrap();
    let seen = vec![sune];
    assert!(matches!(known_status(&ms, &rots, "U2 R U R' U R U2 R'", &seen), KnownStatus::Covered));
    assert!(matches!(known_status(&ms, &rots, "R U2 R' U' R U' R'", &seen), KnownStatus::Missed));
    assert!(matches!(known_status(&ms, &rots, "R Q", &seen), KnownStatus::NoCase));
    assert!(matches!(known_status(&ms, &rots, "R U R' U R U2 R'", &[]), KnownStatus::Missed));
}

#[test]
fn zbls_outcomes_of_records() {
    let ms = MoveSet::build();
    assert_eq!(zbls_outcome(&ms, "R Q"), None);
    assert_eq!(zbls_outcome(&ms, "U y"), None);
    let core = parse_alg("R U' R'", &ms).unwrap();
    assert_eq!(zbls_outcome(&ms, "U2 R U' R'"), Some(zbls_canonical(&core)));
}

#[test]
fn face_turns_then_anything() {
    let ms = MoveSet::build();
    let s = parse_alg("R U' F2 B", &ms).unwrap();
    for t in ["r U M'", "x y2 L", ""] {
        let w = parse_alg(t, &ms).unwrap();
        let st = parse_alg(&format!("R U' F2 B {t}"), &ms).unwrap();
        assert_eq!(st.len(), s.len() + w.len());
        for (i, m) in s.iter().chain(w.iter()).enumerate() {
            assert!(moves_eq(&st[i], m));
        }
    }
    assert!(matches!(parse_alg("R U' F2 B 3Rw", &ms), Err(ParseError::BigCube)));
    match parse_alg("R U' F2 B Mw", &ms) {
        Err(ParseError::Unknown(msg)) => assert_eq!(msg, "M wide=true"),
        other => panic!("unexpected {:?}", other.map(|v| v.len())),
    }
}
