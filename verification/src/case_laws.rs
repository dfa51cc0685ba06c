//! Laws about parsing and classifying algorithms: how a concatenation
//! parses, that a U turn before (or, without a net rotation, after) an
//! algorithm does not change its case, that the ZBLS case ignores a leading
//! U turn, and that the ZBLL case does not depend on the order of the
//! rotations tried.
use vstd::prelude::*;

use crate::faces::{lemma_basic_moves_valid, u_turn_tables};
use crate::laws::{
    law_apply_quarter_turn_four_times, law_apply_then, law_face_turn_order_four, law_identity_then,
    law_inverse_inverse, law_strip_ignores_leading_auf, law_strip_ignores_trailing_u,
    law_then_identity, lemma_inverse_of_order_four, lemma_inverse_unique,
};
use crate::lemmas::{
    lemma_apply_all_in_range, lemma_apply_in_range, lemma_inverse_in_range, lemma_then_valid,
};
use crate::lex::{lemma_lex_irreflexive, lemma_lex_total, lemma_lex_transitive, lex_less};
use crate::model::{
    apply_repeat, apply_tables, identity_tables, in_range, inverse_tables, inverted, iota, scatter,
    then_tables, undo_co, zeros, Tables,
};
use crate::moves::{lemma_standard_valid, MoveSet};
use crate::normalize::{
    canon_spec, case_state, lands_f2l, last_landing, least_candidate, turned_fingerprint, zbll_candidate,
    zbll_spec, zbls_least, zbls_turned,
};
use crate::parse::{
    auf_spec, frame, has_big_cube, is_digit, is_letter, is_ws, prim_inverse, lemma_tokens_error_prefix, u_family_spec, letters_prefix, parse_spec, quarter_spec, reframe, reversed_inverse,
    token_spec, tokens_spec, words, PrimModel,
};

verus! {

// ── tokens of a concatenation ───────────────────────────────────────────

proof fn lemma_words_nonempty(p: Seq<char>)
    requires
        p.len() > 0,
        !is_ws(p.last()),
    ensures
        words(p).len() > 0,
    decreases p.len(),
{
    let d = p.drop_last();
    if d.len() > 0 && !is_ws(d.last()) {
        lemma_words_nonempty(d);
    }
}

/// The tokens of `a`, a space, then `b` are the tokens of `a` followed by
/// those of `b`.
pub proof fn lemma_words_concat(a: Seq<char>, b: Seq<char>)
    ensures
        words(a + seq![' '] + b) == words(a) + words(b),
    decreases b.len(),
{
    let sep = seq![' '];
    let x = a + sep + b;
    assert(is_ws(' '));
    if b.len() == 0 {
        assert(x.drop_last() =~= a);
        assert(x.last() == ' ');
        assert(words(a) + words(b) =~= words(a));
    } else {
        let b1 = b.drop_last();
        let c = b.last();
        let p = a + sep + b1;
        assert(x.drop_last() =~= p);
        assert(x.last() == c);
        lemma_words_concat(a, b1);
        let w = words(p);
        if is_ws(c) {
            assert(words(b) == words(b1));
        } else if b1.len() > 0 && !is_ws(b1.last()) {
            assert(p.last() == b1.last());
            lemma_words_nonempty(b1);
            let v = words(b1);
            assert(words(b) == v.update(v.len() - 1, v.last().push(c)));
            assert(w.last() == v.last());
            assert(w.update(w.len() - 1, w.last().push(c)) =~= words(a) + v.update(
                v.len() - 1,
                v.last().push(c),
            ));
        } else {
            if b1.len() == 0 {
                assert(p.last() == ' ');
            } else {
                assert(p.last() == b1.last());
            }
            assert(words(b) == words(b1).push(seq![c]));
            assert(w.push(seq![c]) =~= words(a) + words(b1).push(seq![c]));
        }
    }
}

/// Tokens that parse, followed by more tokens, parse as the first steps
/// followed by the steps of the rest; an error in the rest is the error.
pub proof fn lemma_tokens_concat(ws1: Seq<Seq<char>>, ws2: Seq<Seq<char>>, ms: MoveSet)
    requires
        tokens_spec(ws1, ms) is Ok,
    ensures
        tokens_spec(ws1 + ws2, ms) == match tokens_spec(ws2, ms) {
            Ok(p2) => Ok::<Seq<PrimModel>, crate::parse::ParseFailure>(
                tokens_spec(ws1, ms)->Ok_0 + p2,
            ),
            Err(e) => Err(e),
        },
    decreases ws2.len(),
{
    let p1 = tokens_spec(ws1, ms)->Ok_0;
    if ws2.len() == 0 {
        assert(ws1 + ws2 =~= ws1);
        assert(p1 + Seq::<PrimModel>::empty() =~= p1);
    } else {
        let w = ws2.drop_last();
        assert((ws1 + ws2).drop_last() =~= ws1 + w);
        assert((ws1 + ws2).last() == ws2.last());
        lemma_tokens_concat(ws1, w, ms);
        if tokens_spec(w, ms) is Ok && token_spec(ws2.last(), ms) is Ok {
            let p2 = tokens_spec(w, ms)->Ok_0;
            let q = token_spec(ws2.last(), ms)->Ok_0;
            assert(p1 + p2 + q =~= p1 + (p2 + q));
        }
    }
}

// ── running the steps after a prefix ────────────────────────────────────

proof fn lemma_frame_prefix(p: Seq<PrimModel>, q: Seq<PrimModel>, n: int)
    requires
        0 <= n <= p.len(),
    ensures
        frame(p + q, n) == frame(p, n),
    decreases n,
{
    if n > 0 {
        lemma_frame_prefix(p, q, n - 1);
        assert((p + q)[n - 1] == p[n - 1]);
    }
}

proof fn lemma_frame_after(p1: Seq<PrimModel>, p2: Seq<PrimModel>, k: int)
    requires
        frame(p1, p1.len() as int).0 == identity_tables(),
        0 <= k <= p2.len(),
    ensures
        frame(p1 + p2, p1.len() + k) == (
            frame(p2, k).0,
            frame(p1, p1.len() as int).1 + frame(p2, k).1,
        ),
    decreases k,
{
    let out1 = frame(p1, p1.len() as int).1;
    if k == 0 {
        lemma_frame_prefix(p1, p2, p1.len() as int);
        assert(out1 + Seq::<Tables>::empty() =~= out1);
    } else {
        lemma_frame_after(p1, p2, k - 1);
        assert((p1 + p2)[p1.len() + k - 1] == p2[k - 1]);
        let (o, out2) = frame(p2, k - 1);
        match p2[k - 1] {
            PrimModel::Rot(g) => {},
            PrimModel::Face(m) => {
                let c = crate::model::then_tables(
                    crate::model::then_tables(o, m),
                    inverse_tables(o),
                );
                assert((out1 + out2).push(c) =~= out1 + out2.push(c));
            },
        }
    }
}

/// Steps that leave the cube orientation as it was, followed by more
/// steps, re-frame to the turns of the first followed by those of the rest.
pub proof fn lemma_reframe_after(p1: Seq<PrimModel>, p2: Seq<PrimModel>)
    requires
        frame(p1, p1.len() as int).0 == identity_tables(),
    ensures
        reframe(p1 + p2) == frame(p1, p1.len() as int).1 + reframe(p2),
{
    lemma_frame_after(p1, p2, p2.len() as int);
    assert((p1 + p2).len() == p1.len() + p2.len());
}

/// Big-cube notation occurs in two word lists together exactly when it
/// occurs in one of them.
pub proof fn lemma_big_cube_concat(w1: Seq<Seq<char>>, w2: Seq<Seq<char>>)
    ensures
        has_big_cube(w1 + w2) == (has_big_cube(w1) || has_big_cube(w2)),
{
    let w = w1 + w2;
    if has_big_cube(w) {
        let i = choose|i: int| 0 <= i < w.len() && #[trigger] w[i].len() > 0 && is_digit(w[i][0]);
        if i < w1.len() {
            assert(w[i] == w1[i]);
        } else {
            assert(w[i] == w2[i - w1.len()]);
        }
    }
    if has_big_cube(w1) {
        let i = choose|i: int| 0 <= i < w1.len() && #[trigger] w1[i].len() > 0 && is_digit(w1[i][0]);
        assert(w[i] == w1[i]);
    }
    if has_big_cube(w2) {
        let i = choose|i: int| 0 <= i < w2.len() && #[trigger] w2[i].len() > 0 && is_digit(w2[i][0]);
        assert(w[w1.len() + i] == w2[i]);
    }
}

/// The inverse of the identity is the identity.
proof fn lemma_inverse_identity()
    ensures
        inverse_tables(identity_tables()) == identity_tables(),
{
    let id = identity_tables();
    let v = inverse_tables(id);
    assert(iota(8).no_duplicates());
    assert(iota(12).no_duplicates());
    assert forall|j: int| 0 <= j < 8 implies v.cp[j] == iota(8)[j] && v.co[j] == 0 by {
        crate::lemmas::lemma_scatter_at(iota(8), iota(8), iota(8), j);
        crate::lemmas::lemma_scatter_at(iota(8), undo_co(id), zeros(8), j);
    }
    assert forall|j: int| 0 <= j < 12 implies v.ep[j] == iota(12)[j] && v.eo[j] == 0 by {
        crate::lemmas::lemma_scatter_at(iota(12), iota(12), iota(12), j);
        crate::lemmas::lemma_scatter_at(iota(12), zeros(12), zeros(12), j);
    }
    assert(v =~= id);
}

/// Face turns taken in the starting orientation come out unchanged and
/// leave the orientation as it was.
proof fn lemma_frame_faces(ts: Seq<Tables>, n: int)
    requires
        0 <= n <= ts.len(),
        forall|i: int| 0 <= i < ts.len() ==> #[trigger] in_range(ts[i]),
    ensures
        frame(ts.map_values(|t: Tables| PrimModel::Face(t)), n) == (identity_tables(), ts.take(n)),
    decreases n,
{
    let p = ts.map_values(|t: Tables| PrimModel::Face(t));
    if n == 0 {
        assert(ts.take(0) =~= Seq::<Tables>::empty());
    } else {
        lemma_frame_faces(ts, n - 1);
        assert(p[n - 1] == PrimModel::Face(ts[n - 1]));
        assert(in_range(ts[n - 1]));
        lemma_inverse_identity();
        law_identity_then(ts[n - 1]);
        law_then_identity(ts[n - 1]);
        assert(ts.take(n - 1).push(ts[n - 1]) =~= ts.take(n));
    }
}

// ── a leading U turn ────────────────────────────────────────────────────

proof fn lemma_words_single(c: char)
    requires
        !is_ws(c),
    ensures
        words(seq![c]) == seq![seq![c]],
{
    let x = seq![c];
    assert(x.drop_last() =~= Seq::<char>::empty());
    assert(x.last() == c);
    assert(words(Seq::<char>::empty()) == Seq::<Seq<char>>::empty());
    assert(words(x) == Seq::<Seq<char>>::empty().push(seq![c]));
    assert(Seq::<Seq<char>>::empty().push(seq![c]) =~= seq![seq![c]]);
}

/// A U turn written on its own: `U`, `U'` or `U2`.
pub open spec fn is_u_token(t: Seq<char>) -> bool {
    t == seq!['U'] || t == seq!['U', '\''] || t == seq!['U', '2']
}

/// The face turns a U token parses to, in the standard move set.
proof fn lemma_u_token(t: Seq<char>, ms: MoveSet) -> (ts: Seq<Tables>)
    requires
        ms.standard(),
        is_u_token(t),
    ensures
        words(t) == seq![t],
        tokens_spec(seq![t], ms) == Ok::<Seq<PrimModel>, crate::parse::ParseFailure>(
            ts.map_values(|x: Tables| PrimModel::Face(x)),
        ),
        forall|i: int| 0 <= i < ts.len() ==> #[trigger] in_range(ts[i]),
        forall|i: int| 0 <= i < ts.len() ==> #[trigger] auf_spec(ts[i], ms),
        forall|i: int| 0 <= i < ts.len() ==> #[trigger] u_family_spec(ts[i], ms),
{
    lemma_standard_valid(ms);
    assert(!is_ws('U'));
    lemma_words_single('U');
    let u = ms.u@;
    assert(t[0] == 'U');
    assert(t.take(1) =~= seq!['U']);
    assert(letters_prefix(t.drop_first()) == 0);
    assert(letters_prefix(t) == 1);
    assert(quarter_spec(seq!['U'], ms) == Ok::<Seq<PrimModel>, crate::parse::ParseFailure>(
        seq![PrimModel::Face(u)],
    ));
    assert(seq![t].drop_last() =~= Seq::<Seq<char>>::empty());
    assert(seq![t].last() == t);
    let tail = t.skip(1);
    let ts = if t == seq!['U'] {
        assert(tail =~= Seq::<char>::empty());
        assert(words(t.drop_last()) =~= Seq::<Seq<char>>::empty());
        seq![u]
    } else if t == seq!['U', '\''] {
        assert(tail =~= seq!['\'']);
        assert(tail[0] == '\'');
        assert(!tail.contains('2'));
        assert(tail.contains('\''));
        assert(t.drop_last() =~= seq!['U']);
        assert(seq!['U'].drop_last() =~= Seq::<char>::empty());
        assert(words(seq!['U']) =~= seq![seq!['U']]);
        assert(seq!['U'].push('\'') =~= t);
        assert(ms.up@ == inverse_tables(u));
        let r = reversed_inverse(seq![PrimModel::Face(u)]);
        assert(r =~= seq![PrimModel::Face(inverse_tables(u))]);
        seq![inverse_tables(u)]
    } else {
        assert(tail =~= seq!['2']);
        assert(tail[0] == '2');
        assert(tail.contains('2'));
        assert(t.drop_last() =~= seq!['U']);
        assert(seq!['U'].drop_last() =~= Seq::<char>::empty());
        assert(words(seq!['U']) =~= seq![seq!['U']]);
        assert(seq!['U'].push('2') =~= t);
        assert(seq![PrimModel::Face(u)] + seq![PrimModel::Face(u)] =~= seq![
            PrimModel::Face(u),
            PrimModel::Face(u),
        ]);
        seq![u, u]
    };
    assert(token_spec(t, ms) is Ok);
    assert(tokens_spec(Seq::<Seq<char>>::empty(), ms) == Ok::<Seq<PrimModel>, crate::parse::ParseFailure>(
        Seq::<PrimModel>::empty(),
    ));
    assert(Seq::<PrimModel>::empty() + token_spec(t, ms)->Ok_0 =~= token_spec(t, ms)->Ok_0);
    assert(tokens_spec(seq![t], ms) == token_spec(t, ms));
    assert(ts.map_values(|x: Tables| PrimModel::Face(x)) =~= token_spec(t, ms)->Ok_0);
    ts
}

/// An AUF written before an algorithm does not change the case it solves:
/// for a U turn `t`, the algorithm `t s` (with a space between) classifies
/// exactly as `s`, whether or not `s` parses and whatever the rotations are.
pub proof fn law_leading_u_turn_keeps_case(
    t: Seq<char>,
    s: Seq<char>,
    ms: MoveSet,
    rots: Seq<Tables>,
)
    requires
        ms.standard(),
        is_u_token(t),
    ensures
        canon_spec(t + seq![' '] + s, ms, rots) == canon_spec(s, ms, rots),
{
    let ts = lemma_u_token(t, ms);
    lemma_words_concat(t, s);
    assert(words(t) + words(s) =~= seq![t] + words(s));
    lemma_tokens_concat(seq![t], words(s), ms);
    lemma_big_cube_concat(seq![t], words(s));
    assert(!has_big_cube(seq![t])) by {
        assert(seq![t][0] == t);
        assert(t[0] == 'U');
    }
    if tokens_spec(words(s), ms) is Ok && !has_big_cube(words(s)) {
        let p1 = ts.map_values(|x: Tables| PrimModel::Face(x));
        let p2 = tokens_spec(words(s), ms)->Ok_0;
        lemma_frame_faces(ts, ts.len() as int);
        assert(ts.take(ts.len() as int) =~= ts);
        lemma_reframe_after(p1, p2);
        law_strip_ignores_leading_auf(ts, reframe(p2), ms);
        assert(parse_spec(t + seq![' '] + s, ms) == Ok::<Seq<Tables>, crate::parse::ParseFailure>(
            ts + reframe(p2),
        ));
    }
}

/// The algorithm parses to steps that end in the orientation they start in
/// (its rotations, wide moves and slices cancel out), or does not parse.
pub open spec fn keeps_orientation(s: Seq<char>, ms: MoveSet) -> bool {
    tokens_spec(words(s), ms) is Ok ==> frame(
        tokens_spec(words(s), ms)->Ok_0,
        tokens_spec(words(s), ms)->Ok_0.len() as int,
    ).0 == identity_tables()
}

/// An AUF written after an algorithm that ends in its starting orientation
/// does not change the case it solves: `s t` (with a space between)
/// classifies exactly as `s` for a U turn `t`.
pub proof fn law_trailing_u_turn_keeps_case(
    s: Seq<char>,
    t: Seq<char>,
    ms: MoveSet,
    rots: Seq<Tables>,
)
    requires
        ms.standard(),
        is_u_token(t),
        keeps_orientation(s, ms),
    ensures
        canon_spec(s + seq![' '] + t, ms, rots) == canon_spec(s, ms, rots),
{
    let ts = lemma_u_token(t, ms);
    lemma_words_concat(s, t);
    let ws = words(s) + seq![t];
    assert(words(s) + words(t) =~= ws);
    lemma_big_cube_concat(words(s), seq![t]);
    assert(!has_big_cube(seq![t])) by {
        assert(seq![t][0] == t);
        assert(t[0] == 'U');
    }
    if has_big_cube(words(s)) {
    } else if tokens_spec(words(s), ms) is Ok {
        lemma_tokens_concat(words(s), seq![t], ms);
        let p = tokens_spec(words(s), ms)->Ok_0;
        let p1 = ts.map_values(|x: Tables| PrimModel::Face(x));
        lemma_frame_faces(ts, ts.len() as int);
        assert(ts.take(ts.len() as int) =~= ts);
        lemma_frame_after(p, p1, p1.len() as int);
        let out = frame(p, p.len() as int).1;
        assert((p + p1).len() == p.len() + p1.len());
        assert(reframe(p + p1) == out + ts);
        assert(reframe(p) == out);
        law_strip_ignores_trailing_u(out, ts, ms);
    } else {
        assert(ws.take(words(s).len() as int) =~= words(s));
        lemma_tokens_error_prefix(ws, words(s).len() as int, ms);
    }
}

// ── parsing a concatenation ─────────────────────────────────────────────

/// An algorithm that parses and ends in its starting orientation (plain
/// face turns, say), followed by a space and a second algorithm, parses to
/// the first one's turns followed by the second one's; when the second one
/// fails, the whole fails with its error.
pub proof fn law_parse_concat(s: Seq<char>, t: Seq<char>, ms: MoveSet)
    requires
        parse_spec(s, ms) is Ok,
        keeps_orientation(s, ms),
    ensures
        parse_spec(s + seq![' '] + t, ms) == match parse_spec(t, ms) {
            Ok(w) => Ok::<Seq<Tables>, crate::parse::ParseFailure>(parse_spec(s, ms)->Ok_0 + w),
            Err(e) => Err(e),
        },
{
    lemma_words_concat(s, t);
    lemma_big_cube_concat(words(s), words(t));
    lemma_tokens_concat(words(s), words(t), ms);
    if !has_big_cube(words(t)) && tokens_spec(words(t), ms) is Ok {
        let p1 = tokens_spec(words(s), ms)->Ok_0;
        let p2 = tokens_spec(words(t), ms)->Ok_0;
        lemma_reframe_after(p1, p2);
    }
}

// ── algorithms of plain face turns ─────────────────────────────────────

/// One of the face letters U, D, R, L, F, B.
pub open spec fn is_face_letter(c: char) -> bool {
    c == 'U' || c == 'D' || c == 'R' || c == 'L' || c == 'F' || c == 'B'
}

/// A plain face turn written on its own: a face letter, optionally followed
/// by `'` or `2`.
pub open spec fn is_face_token(t: Seq<char>) -> bool {
    ||| t.len() == 1 && is_face_letter(t[0])
    ||| t.len() == 2 && is_face_letter(t[0]) && (t[1] == '\'' || t[1] == '2')
}

/// Every token of `s` is a plain face turn.
pub open spec fn face_tokens_only(s: Seq<char>) -> bool {
    forall|i: int| 0 <= i < words(s).len() ==> #[trigger] is_face_token(words(s)[i])
}

/// Every step is a face turn.
pub open spec fn faces_only(p: Seq<PrimModel>) -> bool {
    forall|i: int| 0 <= i < p.len() ==> #[trigger] p[i] is Face
}

proof fn lemma_face_token(t: Seq<char>, ms: MoveSet)
    requires
        is_face_token(t),
    ensures
        token_spec(t, ms) is Ok,
        faces_only(token_spec(t, ms)->Ok_0),
        !is_digit(t[0]),
{
    let c = t[0];
    assert(t.drop_first().len() == 0 || !is_letter(t.drop_first()[0]));
    assert(letters_prefix(t.drop_first()) == 0);
    assert(letters_prefix(t) == 1);
    let base = t.take(1);
    assert(base =~= seq![c]);
    assert(base.last() == c);
    let q = quarter_spec(base, ms)->Ok_0;
    assert(quarter_spec(base, ms) is Ok);
    assert(q.len() == 1 && q[0] is Face);
    let r = token_spec(t, ms)->Ok_0;
    assert forall|i: int| 0 <= i < r.len() implies #[trigger] r[i] is Face by {
        if r == q + q {
            if i < q.len() {
                assert(r[i] == q[i]);
            } else {
                assert(r[i] == q[i - q.len()]);
            }
        } else if r == reversed_inverse(q) {
            assert(r[i] == prim_inverse(q[q.len() - 1 - i]));
        }
    }
}

proof fn lemma_face_tokens(ws: Seq<Seq<char>>, ms: MoveSet)
    requires
        forall|i: int| 0 <= i < ws.len() ==> #[trigger] is_face_token(ws[i]),
    ensures
        tokens_spec(ws, ms) is Ok,
        faces_only(tokens_spec(ws, ms)->Ok_0),
        !has_big_cube(ws),
    decreases ws.len(),
{
    if ws.len() > 0 {
        let d = ws.drop_last();
        assert forall|i: int| 0 <= i < d.len() implies #[trigger] is_face_token(d[i]) by {
            assert(d[i] == ws[i]);
        }
        lemma_face_tokens(d, ms);
        assert(is_face_token(ws[ws.len() - 1]));
        lemma_face_token(ws.last(), ms);
        let p = tokens_spec(d, ms)->Ok_0;
        let q = token_spec(ws.last(), ms)->Ok_0;
        assert forall|i: int| 0 <= i < (p + q).len() implies #[trigger] (p + q)[i] is Face by {
            if i < p.len() {
                assert((p + q)[i] == p[i]);
            } else {
                assert((p + q)[i] == q[i - p.len()]);
            }
        }
        if has_big_cube(ws) {
            let i = choose|i: int| 0 <= i < ws.len() && #[trigger] ws[i].len() > 0 && is_digit(ws[i][0]);
            if i < d.len() {
                assert(d[i] == ws[i]);
            } else {
                lemma_face_token(ws[i], ms);
            }
        }
    }
}

proof fn lemma_frame_faces_only(p: Seq<PrimModel>, n: int)
    requires
        faces_only(p),
        0 <= n <= p.len(),
    ensures
        frame(p, n).0 == identity_tables(),
    decreases n,
{
    if n > 0 {
        lemma_frame_faces_only(p, n - 1);
        assert(p[n - 1] is Face);
    }
}

/// An algorithm of plain face turns parses, and ends in the orientation it
/// starts in.
pub proof fn lemma_face_tokens_parse(s: Seq<char>, ms: MoveSet)
    requires
        face_tokens_only(s),
    ensures
        parse_spec(s, ms) is Ok,
        keeps_orientation(s, ms),
{
    lemma_face_tokens(words(s), ms);
    let p = tokens_spec(words(s), ms)->Ok_0;
    lemma_frame_faces_only(p, p.len() as int);
}

/// An algorithm of plain face turns, a space and a second algorithm parse
/// to the first one's turns followed by the second one's; when the second
/// one fails, the whole fails with the second one's error.
pub proof fn law_parse_concat_face_turns(s: Seq<char>, t: Seq<char>, ms: MoveSet)
    requires
        face_tokens_only(s),
    ensures
        parse_spec(s + seq![' '] + t, ms) == match parse_spec(t, ms) {
            Ok(w) => Ok::<Seq<Tables>, crate::parse::ParseFailure>(parse_spec(s, ms)->Ok_0 + w),
            Err(e) => Err(e),
        },
{
    lemma_face_tokens_parse(s, ms);
    law_parse_concat(s, t, ms);
}

// ── a leading U turn, for ZBLS ──────────────────────────────────────────

/// `k` more turns after `a` turns are `a + k` turns.
pub(crate) proof fn lemma_repeat_add(s: Tables, q: Tables, a: nat, k: nat)
    ensures
        apply_repeat(apply_repeat(s, q, a), q, k) == apply_repeat(s, q, a + k),
    decreases k,
{
    if k > 0 {
        lemma_repeat_add(s, q, a, (k - 1) as nat);
    }
}

pub(crate) proof fn lemma_repeat_in_range(s: Tables, n: nat)
    requires
        in_range(s),
    ensures
        in_range(apply_repeat(s, u_turn_tables(), n)),
    decreases n,
{
    lemma_basic_moves_valid();
    if n > 0 {
        lemma_repeat_in_range(s, (n - 1) as nat);
        lemma_apply_in_range(apply_repeat(s, u_turn_tables(), (n - 1) as nat), u_turn_tables());
    }
}

/// Turning U four more times changes nothing.
pub(crate) proof fn lemma_repeat_mod4(s: Tables, n: nat)
    requires
        in_range(s),
    ensures
        apply_repeat(s, u_turn_tables(), n + 4) == apply_repeat(s, u_turn_tables(), n),
{
    let u = u_turn_tables();
    lemma_repeat_add(s, u, n, 4);
    lemma_repeat_in_range(s, n);
    law_apply_quarter_turn_four_times(apply_repeat(s, u, n), u);
}

/// The state a U-family turn `t` followed by `core` solves is the state
/// `core` solves, turned `j` more times by U, for some `j`.
pub(crate) proof fn lemma_case_state_after_u(core: Seq<Tables>, t: Tables, ms: MoveSet) -> (j: nat)
    requires
        ms.standard(),
        u_family_spec(t, ms),
        forall|i: int| 0 <= i < core.len() ==> #[trigger] in_range(core[i]),
    ensures
        1 <= j <= 3,
        case_state(seq![t] + core) == apply_repeat(case_state(core), u_turn_tables(), j),
        in_range(case_state(core)),
{
    let u = u_turn_tables();
    lemma_basic_moves_valid();
    let inv = inverted(core);
    assert forall|i: int| 0 <= i < inv.len() implies #[trigger] in_range(inv[i]) by {
        assert(in_range(core[core.len() - 1 - i]));
        lemma_inverse_in_range(core[core.len() - 1 - i]);
    }
    lemma_apply_all_in_range(identity_tables(), inv);
    let st = case_state(core);
    let inv2 = inverted(seq![t] + core);
    assert(inv2 =~= inv.push(inverse_tables(t)));
    assert(inv2.drop_last() =~= inv);
    assert(case_state(seq![t] + core) == apply_tables(st, inverse_tables(t)));
    let u2 = then_tables(u, u);
    let u3 = then_tables(u2, u);
    lemma_then_valid(u, u);
    lemma_then_valid(u2, u);
    law_face_turn_order_four(u);
    assert(apply_repeat(st, u, 0) == st);
    assert(apply_repeat(st, u, 1) == apply_tables(apply_repeat(st, u, 0), u));
    assert(apply_repeat(st, u, 2) == apply_tables(apply_repeat(st, u, 1), u));
    assert(apply_repeat(st, u, 3) == apply_tables(apply_repeat(st, u, 2), u));
    lemma_apply_in_range(st, u);
    law_apply_then(st, u, u);
    assert(apply_repeat(st, u, 2) == apply_tables(st, u2));
    lemma_apply_in_range(st, u2);
    law_apply_then(st, u2, u);
    assert(apply_repeat(st, u, 3) == apply_tables(st, u3));
    if t == u {
        lemma_inverse_of_order_four(u);
        3
    } else if t == inverse_tables(u) {
        law_inverse_inverse(u);
        1
    } else {
        assert(t == u2);
        assert(then_tables(u2, u2) == identity_tables());
        lemma_inverse_unique(u2, u2);
        2
    }
}

/// The ZBLS fingerprints of the state after a leading U-family turn are
/// those of the state without it, shifted by `j` U turns.
proof fn lemma_zbls_turned_shift(core: Seq<Tables>, t: Tables, ms: MoveSet) -> (j: int)
    requires
        ms.standard(),
        u_family_spec(t, ms),
        forall|i: int| 0 <= i < core.len() ==> #[trigger] in_range(core[i]),
    ensures
        1 <= j <= 3,
        forall|k: int|
            0 <= k < 4 ==> #[trigger] zbls_turned(case_state(seq![t] + core), k) == zbls_turned(
                case_state(core),
                (k + j) % 4,
            ),
{
    let j = lemma_case_state_after_u(core, t, ms);
    let st = case_state(core);
    let u = u_turn_tables();
    assert forall|k: int| 0 <= k < 4 implies #[trigger] zbls_turned(case_state(seq![t] + core), k)
        == zbls_turned(st, (k + j) % 4) by {
        lemma_repeat_add(st, u, j, k as nat);
        if j + k >= 4 {
            lemma_repeat_mod4(st, (j + k - 4) as nat);
        }
    }
    j as int
}

/// A pre-AUF does not change the ZBLS case: for a U-family turn `t`, the
/// least ZBLS fingerprint of `t` followed by `core` (what `zbls_canonical`
/// returns for it) is the least one of `core`.
pub proof fn law_zbls_leading_u_turn(
    core: Seq<Tables>,
    t: Tables,
    ms: MoveSet,
    r1: Seq<u8>,
    r2: Seq<u8>,
)
    requires
        ms.standard(),
        u_family_spec(t, ms),
        forall|i: int| 0 <= i < core.len() ==> #[trigger] in_range(core[i]),
        zbls_least(case_state(core), r1),
        zbls_least(case_state(seq![t] + core), r2),
    ensures
        r1 == r2,
{
    let j = lemma_zbls_turned_shift(core, t, ms);
    let st = case_state(core);
    let st2 = case_state(seq![t] + core);
    // r2 is a fingerprint of st, so r1 is no greater than it.
    let k2 = choose|k: int| 0 <= k < 4 && r2 == zbls_turned(st2, k);
    let a2 = (k2 + j) % 4;
    assert(0 <= a2 < 4);
    assert(r2 == zbls_turned(st, a2));
    assert(!lex_less(zbls_turned(st, a2), r1));
    // r1 is a fingerprint of st2, so r2 is no greater than it.
    let k1 = choose|k: int| 0 <= k < 4 && r1 == zbls_turned(st, k);
    let k3 = if k1 >= j {
        k1 - j
    } else {
        k1 + 4 - j
    };
    assert(0 <= k3 < 4 && (k3 + j) % 4 == k1);
    assert(zbls_turned(st2, k3) == zbls_turned(st, (k3 + j) % 4));
    assert(!lex_less(zbls_turned(st2, k3), r2));
    if r1 != r2 {
        lemma_lex_total(r1, r2);
    }
}

// ── the order of the rotations ──────────────────────────────────────────

/// `m` is no greater than `p`, which no `x` comes before: so no `x` comes
/// before `m` either.
proof fn lemma_not_below(x: Seq<u8>, m: Seq<u8>, p: Seq<u8>)
    requires
        !lex_less(x, p),
        !lex_less(p, m),
    ensures
        !lex_less(x, m),
{
    if lex_less(x, m) && m != p {
        lemma_lex_total(m, p);
        lemma_lex_transitive(x, m, p);
    }
}

/// The smaller of two fingerprints.
spec fn lex_min(a: Seq<u8>, b: Seq<u8>) -> Seq<u8> {
    if lex_less(b, a) {
        b
    } else {
        a
    }
}

proof fn lemma_lex_min(a: Seq<u8>, b: Seq<u8>)
    ensures
        lex_min(a, b) == a || lex_min(a, b) == b,
        !lex_less(a, lex_min(a, b)),
        !lex_less(b, lex_min(a, b)),
{
    lemma_lex_irreflexive(a);
    lemma_lex_irreflexive(b);
    if lex_less(b, a) && lex_less(a, b) {
        lemma_lex_transitive(a, b, a);
    }
}

/// The least candidate among the rotations before `n`, if any of them lands
/// the first two layers solved.
proof fn lemma_least_upto(st: Tables, rots: Seq<Tables>, n: int) -> (b: Option<Seq<u8>>)
    requires
        0 <= n <= rots.len(),
    ensures
        b is None <==> forall|i: int| 0 <= i < n ==> !lands_f2l(st, #[trigger] rots[i]),
        b is Some ==> exists|i: int, k: int|
            0 <= i < n && 0 <= k < 4 && lands_f2l(st, rots[i]) && b->Some_0 == turned_fingerprint(
                st,
                rots[i],
                k,
            ),
        b is Some ==> forall|i: int, k: int|
            0 <= i < n && 0 <= k < 4 && lands_f2l(st, rots[i]) ==> !lex_less(
                #[trigger] turned_fingerprint(st, rots[i], k),
                b->Some_0,
            ),
    decreases n,
{
    if n == 0 {
        None
    } else {
        let prev = lemma_least_upto(st, rots, n - 1);
        let g = rots[n - 1];
        if !lands_f2l(st, g) {
            assert forall|i: int, k: int|
                0 <= i < n && 0 <= k < 4 && lands_f2l(st, rots[i]) implies !lex_less(
                #[trigger] turned_fingerprint(st, rots[i], k),
                prev->Some_0,
            ) by {
                assert(i < n - 1);
            }
            prev
        } else {
            let t0 = turned_fingerprint(st, g, 0);
            let t1 = turned_fingerprint(st, g, 1);
            let t2 = turned_fingerprint(st, g, 2);
            let t3 = turned_fingerprint(st, g, 3);
            let m1 = lex_min(t0, t1);
            let m2 = lex_min(m1, t2);
            let c = lex_min(m2, t3);
            lemma_lex_min(t0, t1);
            lemma_lex_min(m1, t2);
            lemma_lex_min(m2, t3);
            lemma_not_below(t0, m2, m1);
            lemma_not_below(t1, m2, m1);
            lemma_not_below(t0, c, m2);
            lemma_not_below(t1, c, m2);
            lemma_not_below(t2, c, m2);
            let m = match prev {
                None => c,
                Some(p) => lex_min(p, c),
            };
            if prev is Some {
                lemma_lex_min(prev->Some_0, c);
            }
            assert forall|i: int, k: int|
                0 <= i < n && 0 <= k < 4 && lands_f2l(st, rots[i]) implies !lex_less(
                #[trigger] turned_fingerprint(st, rots[i], k),
                m,
            ) by {
                let x = turned_fingerprint(st, rots[i], k);
                if i == n - 1 {
                    assert(x == t0 || x == t1 || x == t2 || x == t3);
                    if prev is Some {
                        lemma_not_below(x, m, c);
                    }
                } else {
                    lemma_not_below(x, m, prev->Some_0);
                }
            }
            assert(exists|i: int, k: int|
                0 <= i < n && 0 <= k < 4 && lands_f2l(st, rots[i]) && m == turned_fingerprint(
                    st,
                    rots[i],
                    k,
                )) by {
                if m == c {
                    if c == t0 {
                        assert(m == turned_fingerprint(st, rots[n - 1], 0));
                    } else if c == t1 {
                        assert(m == turned_fingerprint(st, rots[n - 1], 1));
                    } else if c == t2 {
                        assert(m == turned_fingerprint(st, rots[n - 1], 2));
                    } else {
                        assert(m == turned_fingerprint(st, rots[n - 1], 3));
                    }
                } else {
                    let (i, k) = choose|i: int, k: int|
                        0 <= i < n - 1 && 0 <= k < 4 && lands_f2l(st, rots[i]) && prev->Some_0
                            == turned_fingerprint(st, rots[i], k);
                    assert(m == turned_fingerprint(st, rots[i], k));
                }
            }
            Some(m)
        }
    }
}

/// When some rotation lands the first two layers solved, the least candidate
/// is a candidate and no candidate comes before it.
pub(crate) proof fn lemma_least_candidate(st: Tables, rots: Seq<Tables>)
    requires
        exists|i: int| 0 <= i < rots.len() && lands_f2l(st, #[trigger] rots[i]),
    ensures
        zbll_candidate(st, rots, least_candidate(st, rots)),
        forall|c: Seq<u8>| zbll_candidate(st, rots, c) ==> !lex_less(c, least_candidate(st, rots)),
{
    let b = lemma_least_upto(st, rots, rots.len() as int);
    let w = b->Some_0;
    assert(zbll_candidate(st, rots, w));
    assert forall|c: Seq<u8>| zbll_candidate(st, rots, c) implies !lex_less(c, w) by {
        let (i, k) = choose|i: int, k: int|
            0 <= i < rots.len() && 0 <= k < 4 && lands_f2l(st, rots[i]) && c == turned_fingerprint(
                st,
                rots[i],
                k,
            );
    }
}

/// The case `zbll_canonical` reads does not depend on the order in which
/// the rotations are tried: two lists holding the same rotations find a
/// case for the same algorithms, with the same fingerprint.
pub proof fn law_zbll_rotation_order(core: Seq<Tables>, rots: Seq<Tables>, rots2: Seq<Tables>)
    requires
        forall|g: Tables| rots.contains(g) <==> rots2.contains(g),
    ensures
        zbll_spec(core, rots) is Some <==> zbll_spec(core, rots2) is Some,
        zbll_spec(core, rots) is Some ==> zbll_spec(core, rots)->Some_0.0 == zbll_spec(
            core,
            rots2,
        )->Some_0.0,
{
    let st = case_state(core);
    lemma_last_landing_spec(st, rots);
    lemma_last_landing_spec(st, rots2);
    assert forall|c: Seq<u8>| zbll_candidate(st, rots, c) ==> zbll_candidate(st, rots2, c) by {
        if zbll_candidate(st, rots, c) {
            let (i, k) = choose|i: int, k: int|
                0 <= i < rots.len() && 0 <= k < 4 && lands_f2l(st, rots[i]) && c == turned_fingerprint(
                    st,
                    rots[i],
                    k,
                );
            assert(rots.contains(rots[i]));
            let i2 = choose|i2: int| 0 <= i2 < rots2.len() && rots2[i2] == rots[i];
            assert(zbll_candidate(st, rots2, c)) by {
                assert(c == turned_fingerprint(st, rots2[i2], k));
            }
        }
    }
    assert forall|c: Seq<u8>| zbll_candidate(st, rots2, c) ==> zbll_candidate(st, rots, c) by {
        if zbll_candidate(st, rots2, c) {
            let (i, k) = choose|i: int, k: int|
                0 <= i < rots2.len() && 0 <= k < 4 && lands_f2l(st, rots2[i]) && c
                    == turned_fingerprint(st, rots2[i], k);
            assert(rots2.contains(rots2[i]));
            let i2 = choose|i2: int| 0 <= i2 < rots.len() && rots[i2] == rots2[i];
            assert(zbll_candidate(st, rots, c)) by {
                assert(c == turned_fingerprint(st, rots[i2], k));
            }
        }
    }
    let lands1 = exists|i: int| 0 <= i < rots.len() && lands_f2l(st, #[trigger] rots[i]);
    let lands2 = exists|i: int| 0 <= i < rots2.len() && lands_f2l(st, #[trigger] rots2[i]);
    if lands1 {
        let i = choose|i: int| 0 <= i < rots.len() && lands_f2l(st, #[trigger] rots[i]);
        assert(rots.contains(rots[i]));
        let i2 = choose|i2: int| 0 <= i2 < rots2.len() && rots2[i2] == rots[i];
        assert(lands_f2l(st, rots2[i2]));
    }
    if lands2 {
        let i = choose|i: int| 0 <= i < rots2.len() && lands_f2l(st, #[trigger] rots2[i]);
        assert(rots2.contains(rots2[i]));
        let i2 = choose|i2: int| 0 <= i2 < rots.len() && rots[i2] == rots2[i];
        assert(lands_f2l(st, rots[i2]));
    }
    if lands1 {
        lemma_least_candidate(st, rots);
        lemma_least_candidate(st, rots2);
        let a = least_candidate(st, rots);
        let b = least_candidate(st, rots2);
        assert(zbll_candidate(st, rots, b));
        assert(zbll_candidate(st, rots2, a));
        if a != b {
            lemma_lex_total(a, b);
        }
    }
}

/// A rotation lands exactly when the last landing one exists.
proof fn lemma_last_landing_spec(st: Tables, rots: Seq<Tables>)
    ensures
        last_landing(st, rots, rots.len() as int) >= 0 <==> exists|i: int|
            0 <= i < rots.len() && lands_f2l(st, #[trigger] rots[i]),
{
    lemma_last_landing_range(st, rots, rots.len() as int);
}

pub(crate) proof fn lemma_last_landing_range(st: Tables, rots: Seq<Tables>, n: int)
    requires
        0 <= n <= rots.len(),
    ensures
        -1 <= last_landing(st, rots, n) < n,
        last_landing(st, rots, n) >= 0 ==> lands_f2l(st, rots[last_landing(st, rots, n)]),
        last_landing(st, rots, n) < 0 ==> forall|i: int| 0 <= i < n ==> !lands_f2l(st, #[trigger] rots[i]),
    decreases n,
{
    if n > 0 {
        lemma_last_landing_range(st, rots, n - 1);
    }
}

} // verus!
