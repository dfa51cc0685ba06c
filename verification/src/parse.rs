//! Parsing algorithm strings into sequences of fixed-frame face turns.
use vstd::prelude::*;
use vstd::string::{StrSliceExecFns, StringExecFns};

use crate::cube::tables_of;
use crate::lemmas::{lemma_inverse_in_range, lemma_then_in_range};
use crate::model::{
    identity_tables, in_range, inverse_ok, inverse_tables, inverted, then_tables, Tables,
};
use crate::moves::{moves_eq, FaceMove, MoveSet};

verus! {

/// Why an algorithm string could not be parsed.
#[derive(Debug)]
pub enum ParseError {
    /// Token contains big-cube notation (3r, 4r, …) — skip whole alg.
    BigCube,
    Unknown(String),
}

/// A parse failure as a mathematical value.
pub enum ParseFailure {
    BigCube,
    Unknown(Seq<char>),
}

impl View for ParseError {
    type V = ParseFailure;

    open spec fn view(&self) -> ParseFailure {
        match self {
            ParseError::BigCube => ParseFailure::BigCube,
            ParseError::Unknown(msg) => ParseFailure::Unknown(msg@),
        }
    }
}

/// One primitive step a token expands into, as tables: a whole-cube
/// rotation or a single-face turn.
pub enum PrimModel {
    Rot(Tables),
    Face(Tables),
}

/// The step that undoes a primitive step.
pub open spec fn prim_inverse(p: PrimModel) -> PrimModel {
    match p {
        PrimModel::Rot(g) => PrimModel::Rot(inverse_tables(g)),
        PrimModel::Face(m) => PrimModel::Face(inverse_tables(m)),
    }
}

/// The tables a primitive step carries.
pub open spec fn prim_tables(p: PrimModel) -> Tables {
    match p {
        PrimModel::Rot(g) => g,
        PrimModel::Face(m) => m,
    }
}

// ── tokens ──────────────────────────────────────────────────────────────

/// Unicode white space, the separators between tokens.
pub open spec fn is_ws(c: char) -> bool {
    let u = c as u32;
    ||| 0x09 <= u <= 0x0D
    ||| u == 0x20
    ||| u == 0x85
    ||| u == 0xA0
    ||| u == 0x1680
    ||| 0x2000 <= u <= 0x200A
    ||| u == 0x2028
    ||| u == 0x2029
    ||| u == 0x202F
    ||| u == 0x205F
    ||| u == 0x3000
}

/// The tokens of `s`: its maximal runs of characters that are not white
/// space, in order.
pub open spec fn words(s: Seq<char>) -> Seq<Seq<char>>
    decreases s.len(),
{
    if s.len() == 0 {
        seq![]
    } else {
        let p = s.drop_last();
        let c = s.last();
        let w = words(p);
        if is_ws(c) {
            w
        } else if p.len() > 0 && !is_ws(p.last()) {
            w.update(w.len() - 1, w.last().push(c))
        } else {
            w.push(seq![c])
        }
    }
}

/// An ASCII digit.
pub open spec fn is_digit(c: char) -> bool {
    '0' <= c <= '9'
}

/// An ASCII letter.
pub open spec fn is_letter(c: char) -> bool {
    ('A' <= c <= 'Z') || ('a' <= c <= 'z')
}

/// The number of ASCII letters at the start of `t`.
pub open spec fn letters_prefix(t: Seq<char>) -> nat
    decreases t.len(),
{
    if t.len() > 0 && is_letter(t[0]) {
        1 + letters_prefix(t.drop_first())
    } else {
        0
    }
}

/// The message of an unknown base move: its core, then ` wide=true` or
/// ` wide=false`.
pub open spec fn unknown_message(core: Seq<char>, wide: bool) -> Seq<char> {
    core + seq![' ', 'w', 'i', 'd', 'e', '='] + if wide {
        seq!['t', 'r', 'u', 'e']
    } else {
        seq!['f', 'a', 'l', 's', 'e']
    }
}

/// The quarter-turn steps of a base move (no suffix applied).
///
/// Wide moves are a rotation then a face turn (`Rw = x L`, `Lw = x' R`,
/// `Uw = y D`, `Dw = y' U`, `Fw = z B`, `Bw = z' F`); slices are two faces
/// around a rotation (`M = L' x' R`, `E = D' y' U`, `S = F' z B`).
pub open spec fn quarter_spec(base: Seq<char>, ms: MoveSet) -> Result<Seq<PrimModel>, ParseFailure> {
    let wide = base.len() > 0 && base.last() == 'w';
    let core = if wide {
        base.drop_last()
    } else {
        base
    };
    let c = if core.len() == 1 {
        core[0]
    } else {
        ' '
    };
    if core.len() == 1 && !wide && c == 'U' {
        Ok(seq![PrimModel::Face(ms.u@)])
    } else if core.len() == 1 && !wide && c == 'D' {
        Ok(seq![PrimModel::Face(ms.d@)])
    } else if core.len() == 1 && !wide && c == 'R' {
        Ok(seq![PrimModel::Face(ms.r@)])
    } else if core.len() == 1 && !wide && c == 'L' {
        Ok(seq![PrimModel::Face(ms.l@)])
    } else if core.len() == 1 && !wide && c == 'F' {
        Ok(seq![PrimModel::Face(ms.f@)])
    } else if core.len() == 1 && !wide && c == 'B' {
        Ok(seq![PrimModel::Face(ms.b@)])
    } else if core.len() == 1 && (c == 'u' || (wide && c == 'U')) {
        Ok(seq![PrimModel::Rot(ms.y@), PrimModel::Face(ms.d@)])
    } else if core.len() == 1 && (c == 'd' || (wide && c == 'D')) {
        Ok(seq![PrimModel::Rot(ms.yp@), PrimModel::Face(ms.u@)])
    } else if core.len() == 1 && (c == 'r' || (wide && c == 'R')) {
        Ok(seq![PrimModel::Rot(ms.x@), PrimModel::Face(ms.l@)])
    } else if core.len() == 1 && (c == 'l' || (wide && c == 'L')) {
        Ok(seq![PrimModel::Rot(ms.xp@), PrimModel::Face(ms.r@)])
    } else if core.len() == 1 && (c == 'f' || (wide && c == 'F')) {
        Ok(seq![PrimModel::Rot(ms.z@), PrimModel::Face(ms.b@)])
    } else if core.len() == 1 && (c == 'b' || (wide && c == 'B')) {
        Ok(seq![PrimModel::Rot(ms.zp@), PrimModel::Face(ms.f@)])
    } else if core.len() == 1 && !wide && c == 'M' {
        Ok(seq![PrimModel::Face(ms.lp@), PrimModel::Rot(ms.xp@), PrimModel::Face(ms.r@)])
    } else if core.len() == 1 && !wide && c == 'E' {
        Ok(seq![PrimModel::Face(ms.dp@), PrimModel::Rot(ms.yp@), PrimModel::Face(ms.u@)])
    } else if core.len() == 1 && !wide && c == 'S' {
        Ok(seq![PrimModel::Face(ms.fp@), PrimModel::Rot(ms.z@), PrimModel::Face(ms.b@)])
    } else if core.len() == 1 && c == 'x' {
        Ok(seq![PrimModel::Rot(ms.x@)])
    } else if core.len() == 1 && c == 'y' {
        Ok(seq![PrimModel::Rot(ms.y@)])
    } else if core.len() == 1 && c == 'z' {
        Ok(seq![PrimModel::Rot(ms.z@)])
    } else {
        Err(ParseFailure::Unknown(unknown_message(core, wide)))
    }
}

/// The steps in reverse order, each inverted.
pub open spec fn reversed_inverse(q: Seq<PrimModel>) -> Seq<PrimModel> {
    Seq::new(q.len(), |i: int| prim_inverse(q[q.len() - 1 - i]))
}

/// The primitive steps of one token: a leading digit marks big-cube
/// notation; otherwise the token is a base move of letters followed by a
/// suffix, where a `2` doubles the move and otherwise a `'` inverts it.
pub open spec fn token_spec(t: Seq<char>, ms: MoveSet) -> Result<Seq<PrimModel>, ParseFailure> {
    if t.len() > 0 && is_digit(t[0]) {
        Err(ParseFailure::BigCube)
    } else {
        let n = letters_prefix(t) as int;
        let base = t.take(n);
        let suffix = t.skip(n);
        if n == 0 {
            Err(ParseFailure::Unknown(t))
        } else {
            match quarter_spec(base, ms) {
                Err(e) => Err(e),
                Ok(q) => if suffix.contains('2') {
                    Ok(q + q)
                } else if suffix.contains('\'') {
                    Ok(reversed_inverse(q))
                } else {
                    Ok(q)
                },
            }
        }
    }
}

/// The steps of all tokens, in order; the first token that fails decides.
pub open spec fn tokens_spec(ws: Seq<Seq<char>>, ms: MoveSet) -> Result<Seq<PrimModel>, ParseFailure>
    decreases ws.len(),
{
    if ws.len() == 0 {
        Ok(seq![])
    } else {
        match tokens_spec(ws.drop_last(), ms) {
            Err(e) => Err(e),
            Ok(p) => match token_spec(ws.last(), ms) {
                Err(e) => Err(e),
                Ok(q) => Ok(p + q),
            },
        }
    }
}

/// Running the first `n` steps: the cube orientation they leave, and the
/// fixed-frame face turns they produce.  A rotation only changes the
/// orientation; a face turn in the current frame becomes the conjugate
/// `orient · face · orient⁻¹`.
pub open spec fn frame(p: Seq<PrimModel>, n: int) -> (Tables, Seq<Tables>)
    decreases n,
{
    if n <= 0 {
        (identity_tables(), seq![])
    } else {
        let (o, out) = frame(p, n - 1);
        match p[n - 1] {
            PrimModel::Rot(g) => (then_tables(o, g), out),
            PrimModel::Face(m) => (o, out.push(then_tables(then_tables(o, m), inverse_tables(o)))),
        }
    }
}

/// The face turns of the steps, in the fixed frame. The net cube rotation
/// the steps leave behind is dropped: classification reorients over all the
/// cube rotations anyway.
pub open spec fn reframe(p: Seq<PrimModel>) -> Seq<Tables> {
    frame(p, p.len() as int).1
}

/// The net cube rotation the steps leave behind.
pub open spec fn net_rotation(p: Seq<PrimModel>) -> Tables {
    frame(p, p.len() as int).0
}

/// Some word starts with a digit: big-cube notation such as `3r`.
pub open spec fn has_big_cube(ws: Seq<Seq<char>>) -> bool {
    exists|i: int| 0 <= i < ws.len() && #[trigger] ws[i].len() > 0 && is_digit(ws[i][0])
}

/// What parsing `s` gives: the big-cube error if any word is big-cube
/// notation, else the first word that fails decides, else the re-framed face
/// turns.
pub open spec fn parse_spec(s: Seq<char>, ms: MoveSet) -> Result<Seq<Tables>, ParseFailure> {
    if has_big_cube(words(s)) {
        Err(ParseFailure::BigCube)
    } else {
        match tokens_spec(words(s), ms) {
            Err(e) => Err(e),
            Ok(p) => Ok(reframe(p)),
        }
    }
}

/// The tables the parser reads have their entries in range.
pub open spec fn parse_tables_in_range(ms: MoveSet) -> bool {
    &&& in_range(ms.u@)
    &&& in_range(ms.d@)
    &&& in_range(ms.r@)
    &&& in_range(ms.l@)
    &&& in_range(ms.f@)
    &&& in_range(ms.b@)
    &&& in_range(ms.lp@)
    &&& in_range(ms.dp@)
    &&& in_range(ms.fp@)
    &&& in_range(ms.x@)
    &&& in_range(ms.xp@)
    &&& in_range(ms.y@)
    &&& in_range(ms.yp@)
    &&& in_range(ms.z@)
    &&& in_range(ms.zp@)
}

// ── executable parser ───────────────────────────────────────────────────

/// One primitive step a token expands into: either a whole-cube rotation or a
/// single-face turn. Wide and slice moves expand to a rotation plus a face
/// turn (e.g. `Rw = x L`, `M = L' x' R`); plain rotations expand to a single
/// `Rot`. Keeping the two kinds distinct lets the parser handle rotations by
/// re-framing the moves that follow, rather than permuting cube pieces.
#[derive(Clone, Copy)]
enum Prim {
    Rot(FaceMove),
    Face(FaceMove),
}

impl View for Prim {
    type V = PrimModel;

    closed spec fn view(&self) -> PrimModel {
        match self {
            Prim::Rot(g) => PrimModel::Rot(g@),
            Prim::Face(m) => PrimModel::Face(m@),
        }
    }
}

spec fn prim_views(v: Seq<Prim>) -> Seq<PrimModel> {
    v.map_values(|p: Prim| p@)
}

/// Every step carries tables whose entries are in range.
pub open spec fn prims_in_range(q: Seq<PrimModel>) -> bool {
    forall|i: int| 0 <= i < q.len() ==> #[trigger] in_range(prim_tables(q[i]))
}

impl Prim {
    fn inverse(self) -> (r: Prim)
        requires
            in_range(prim_tables(self@)),
        ensures
            r@ == prim_inverse(self@),
            in_range(prim_tables(r@)),
    {
        proof {
            lemma_inverse_in_range(prim_tables(self@));
        }
        match self {
            Prim::Rot(g) => Prim::Rot(g.inverse()),
            Prim::Face(m) => Prim::Face(m.inverse()),
        }
    }
}

/// The characters of `s`.
fn collect_chars(s: &str) -> (v: Vec<char>)
    ensures
        v@ == s@,
{
    let mut v: Vec<char> = Vec::new();
    for c in it: s.chars()
        invariant
            v@ == it.seq().take(it.index() as int),
            it.seq() == s@,
    {
        v.push(c);
    }
    v
}

/// True if `c` is Unicode white space.
fn is_ws_char(c: char) -> (r: bool)
    ensures
        r == is_ws(c),
{
    let u = c as u32;
    (0x09 <= u && u <= 0x0D) || u == 0x20 || u == 0x85 || u == 0xA0 || u == 0x1680 || (0x2000 <= u
        && u <= 0x200A) || u == 0x2028 || u == 0x2029 || u == 0x202F || u == 0x205F || u == 0x3000
}

/// The token spans of `chars`: start and end positions of its maximal runs of
/// characters that are not white space.
fn word_spans(chars: &Vec<char>) -> (spans: Vec<(usize, usize)>)
    ensures
        spans@.len() == words(chars@).len(),
        forall|w: int|
            0 <= w < spans@.len() ==> {
                let (a, b) = #[trigger] spans@[w];
                &&& a < b <= chars@.len()
                &&& chars@.subrange(a as int, b as int) == words(chars@)[w]
            },
{
    let mut spans: Vec<(usize, usize)> = Vec::new();
    let mut in_word = false;
    let mut start: usize = 0;
    let mut i: usize = 0;
    while i < chars.len()
        invariant
            i <= chars@.len(),
            in_word ==> {
                &&& start < i
                &&& !is_ws(chars@[i - 1])
                &&& words(chars@.take(i as int)).len() == spans@.len() + 1
                &&& words(chars@.take(i as int)).last() == chars@.subrange(start as int, i as int)
            },
            !in_word ==> {
                &&& (i == 0 || is_ws(chars@[i - 1]))
                &&& words(chars@.take(i as int)).len() == spans@.len()
            },
            forall|w: int|
                0 <= w < spans@.len() ==> {
                    let (a, b) = #[trigger] spans@[w];
                    &&& a < b <= i
                    &&& chars@.subrange(a as int, b as int) == words(chars@.take(i as int))[w]
                },
        decreases chars@.len() - i,
    {
        let c = chars[i];
        let ghost prev = chars@.take(i as int);
        let ghost next = chars@.take(i + 1);
        assert(next.drop_last() =~= prev);
        assert(next.last() == c);
        if is_ws_char(c) {
            if in_word {
                spans.push((start, i));
                in_word = false;
            }
            assert(words(next) == words(prev));
        } else {
            if in_word {
                assert(prev.len() > 0 && prev.last() == chars@[i - 1]);
                assert(words(next) == words(prev).update(
                    words(prev).len() - 1,
                    words(prev).last().push(c),
                ));
                assert(chars@.subrange(start as int, i + 1) =~= chars@.subrange(
                    start as int,
                    i as int,
                ).push(c));
            } else {
                if i > 0 {
                    assert(prev.last() == chars@[i - 1]);
                }
                assert(words(next) == words(prev).push(seq![c]));
                assert(chars@.subrange(i as int, i + 1) =~= seq![c]);
                start = i;
                in_word = true;
            }
        }
        i = i + 1;
    }
    if in_word {
        spans.push((start, i));
    }
    assert(chars@.take(chars@.len() as int) =~= chars@);
    spans
}

/// The error of an unknown base move whose core is `s[a..e]`.
fn unknown_base(s: &str, a: usize, e: usize, wide: bool) -> (err: ParseError)
    requires
        a <= e <= s@.len(),
    ensures
        err@ == ParseFailure::Unknown(unknown_message(s@.subrange(a as int, e as int), wide)),
{
    let core = s.substring_char(a, e);
    let mut msg = String::from_str(core);
    msg.append(" wide=");
    if wide {
        msg.append("true");
    } else {
        msg.append("false");
    }
    proof {
        reveal_strlit(" wide=");
        reveal_strlit("true");
        reveal_strlit("false");
        assert(msg@ =~= unknown_message(s@.subrange(a as int, e as int), wide));
    }
    ParseError::Unknown(msg)
}

/// The quarter-turn primitive expansion of the base move `chars[a..b]` (no
/// suffix applied).
fn quarter_prims(s: &str, chars: &Vec<char>, a: usize, b: usize, ms: &MoveSet) -> (r: Result<
    Vec<Prim>,
    ParseError,
>)
    requires
        chars@ == s@,
        a < b <= chars@.len(),
        parse_tables_in_range(*ms),
    ensures
        match quarter_spec(chars@.subrange(a as int, b as int), *ms) {
            Ok(q) => r is Ok && prim_views(r->Ok_0@) == q && prims_in_range(q),
            Err(e) => r is Err && r->Err_0@ == e,
        },
{
    let ghost base = chars@.subrange(a as int, b as int);
    // Wide notation "Rw" is the same as lowercase "r".
    let wide = chars[b - 1] == 'w';
    let core_end = if wide {
        b - 1
    } else {
        b
    };
    assert(base.last() == chars@[b - 1]);
    let ghost core = if wide {
        base.drop_last()
    } else {
        base
    };
    assert(core =~= chars@.subrange(a as int, core_end as int));
    if core_end - a != 1 {
        return Err(unknown_base(s, a, core_end, wide));
    }
    let c = chars[a];
    assert(core[0] == c);
    let prims = if !wide && c == 'U' {
        vec![Prim::Face(ms.u)]
    } else if !wide && c == 'D' {
        vec![Prim::Face(ms.d)]
    } else if !wide && c == 'R' {
        vec![Prim::Face(ms.r)]
    } else if !wide && c == 'L' {
        vec![Prim::Face(ms.l)]
    } else if !wide && c == 'F' {
        vec![Prim::Face(ms.f)]
    } else if !wide && c == 'B' {
        vec![Prim::Face(ms.b)]
    } else if c == 'u' || (wide && c == 'U') {
        vec![Prim::Rot(ms.y), Prim::Face(ms.d)]
    } else if c == 'd' || (wide && c == 'D') {
        vec![Prim::Rot(ms.yp), Prim::Face(ms.u)]
    } else if c == 'r' || (wide && c == 'R') {
        vec![Prim::Rot(ms.x), Prim::Face(ms.l)]
    } else if c == 'l' || (wide && c == 'L') {
        vec![Prim::Rot(ms.xp), Prim::Face(ms.r)]
    } else if c == 'f' || (wide && c == 'F') {
        vec![Prim::Rot(ms.z), Prim::Face(ms.b)]
    } else if c == 'b' || (wide && c == 'B') {
        vec![Prim::Rot(ms.zp), Prim::Face(ms.f)]
    } else if !wide && c == 'M' {
        vec![Prim::Face(ms.lp), Prim::Rot(ms.xp), Prim::Face(ms.r)]
    } else if !wide && c == 'E' {
        vec![Prim::Face(ms.dp), Prim::Rot(ms.yp), Prim::Face(ms.u)]
    } else if !wide && c == 'S' {
        vec![Prim::Face(ms.fp), Prim::Rot(ms.z), Prim::Face(ms.b)]
    } else if c == 'x' {
        vec![Prim::Rot(ms.x)]
    } else if c == 'y' {
        vec![Prim::Rot(ms.y)]
    } else if c == 'z' {
        vec![Prim::Rot(ms.z)]
    } else {
        return Err(unknown_base(s, a, core_end, wide));
    };
    assert(prim_views(prims@) =~= quarter_spec(base, *ms)->Ok_0);
    Ok(prims)
}

/// True if `c` is an ASCII digit.
fn is_digit_char(c: char) -> (r: bool)
    ensures
        r == is_digit(c),
{
    '0' <= c && c <= '9'
}

/// True if `c` is an ASCII letter.
fn is_letter_char(c: char) -> (r: bool)
    ensures
        r == is_letter(c),
{
    ('A' <= c && c <= 'Z') || ('a' <= c && c <= 'z')
}

proof fn lemma_letters_prefix(t: Seq<char>, k: int)
    requires
        0 <= k <= t.len(),
        forall|i: int| 0 <= i < k ==> is_letter(#[trigger] t[i]),
        k == t.len() || !is_letter(t[k]),
    ensures
        letters_prefix(t) == k,
    decreases k,
{
    if k > 0 {
        assert(is_letter(t[0]));
        let d = t.drop_first();
        assert forall|i: int| 0 <= i < k - 1 implies is_letter(#[trigger] d[i]) by {
            assert(d[i] == t[i + 1]);
        }
        if k < t.len() {
            assert(d[k - 1] == t[k]);
        }
        lemma_letters_prefix(d, k - 1);
    }
}

/// Appends the steps of `q` to `out`.
fn push_all(out: &mut Vec<Prim>, q: &Vec<Prim>)
    ensures
        prim_views(final(out)@) == prim_views(old(out)@) + prim_views(q@),
{
    let ghost start = prim_views(out@);
    for i in 0..q.len()
        invariant
            prim_views(out@) == start + prim_views(q@.take(i as int)),
    {
        let ghost prev = out@;
        out.push(q[i]);
        assert(prim_views(out@) =~= prim_views(prev).push(q@[i as int]@));
        assert(prim_views(q@.take(i + 1)) =~= prim_views(q@.take(i as int)).push(q@[i as int]@));
        assert(prim_views(out@) =~= start + prim_views(q@.take(i + 1)));
    }
    assert(q@.take(q@.len() as int) =~= q@);
}

/// Appends the steps of `q` to `out` in reverse order, each inverted.
fn push_reversed_inverse(out: &mut Vec<Prim>, q: &Vec<Prim>)
    requires
        prims_in_range(prim_views(q@)),
    ensures
        prim_views(final(out)@) == prim_views(old(out)@) + reversed_inverse(prim_views(q@)),
{
    let ghost start = prim_views(out@);
    let ghost rq = reversed_inverse(prim_views(q@));
    let n = q.len();
    for i in 0..n
        invariant
            n == q@.len(),
            prims_in_range(prim_views(q@)),
            rq == reversed_inverse(prim_views(q@)),
            prim_views(out@) == start + rq.take(i as int),
    {
        assert(in_range(prim_tables(prim_views(q@)[n - 1 - i])));
        let p = q[n - 1 - i].inverse();
        let ghost prev = out@;
        out.push(p);
        assert(prim_views(out@) =~= prim_views(prev).push(p@));
        assert(p@ == rq[i as int]);
        assert(rq.take(i + 1) =~= rq.take(i as int).push(rq[i as int]));
        assert(prim_views(out@) =~= start + rq.take(i + 1));
    }
    assert(rq.take(n as int) =~= rq);
}

/// Split the token `chars[a..b]` into its base move (the leading ASCII
/// letters) and its suffix: returns where the suffix starts, or an error
/// carrying the token when it has no base.
fn split_base_suffix(s: &str, chars: &Vec<char>, a: usize, b: usize) -> (r: Result<usize, ParseError>)
    requires
        chars@ == s@,
        a < b <= chars@.len(),
    ensures
        letters_prefix(chars@.subrange(a as int, b as int)) == 0 ==> r is Err && r->Err_0@
            == ParseFailure::Unknown(chars@.subrange(a as int, b as int)),
        letters_prefix(chars@.subrange(a as int, b as int)) > 0 ==> r is Ok && r->Ok_0 == a
            + letters_prefix(chars@.subrange(a as int, b as int)),
        r is Ok ==> a < r->Ok_0 <= b,
{
    let ghost t = chars@.subrange(a as int, b as int);
    let mut n = a;
    while n < b && is_letter_char(chars[n])
        invariant
            a <= n <= b <= chars@.len(),
            t == chars@.subrange(a as int, b as int),
            forall|i: int| 0 <= i < n - a ==> is_letter(#[trigger] t[i]),
        decreases b - n,
    {
        assert(t[n - a] == chars@[n as int]);
        n = n + 1;
    }
    proof {
        if n < b {
            assert(t[n - a] == chars@[n as int]);
        }
        lemma_letters_prefix(t, n - a);
    }
    if n == a {
        let tok = s.substring_char(a, b);
        return Err(ParseError::Unknown(String::from_str(tok)));
    }
    Ok(n)
}

/// Expand the token `chars[a..b]` into its primitive steps, appended to
/// `out`.
fn token_prims(s: &str, chars: &Vec<char>, a: usize, b: usize, ms: &MoveSet, out: &mut Vec<Prim>) -> (r:
    Result<(), ParseError>)
    requires
        chars@ == s@,
        a < b <= chars@.len(),
        parse_tables_in_range(*ms),
    ensures
        match token_spec(chars@.subrange(a as int, b as int), *ms) {
            Ok(q) => r is Ok && prim_views(final(out)@) == prim_views(old(out)@) + q
                && prims_in_range(q),
            Err(e) => r is Err && r->Err_0@ == e,
        },
        r is Err ==> final(out)@ == old(out)@,
{
    let ghost t = chars@.subrange(a as int, b as int);
    if is_digit_char(chars[a]) {
        assert(t[0] == chars@[a as int]);
        return Err(ParseError::BigCube);
    }
    let n = match split_base_suffix(s, chars, a, b) {
        Ok(n) => n,
        Err(e) => {
            return Err(e);
        },
    };
    let ghost suffix = t.skip(n - a);
    let mut prime = false;
    let mut double = false;
    let mut k = n;
    while k < b
        invariant
            n <= k <= b <= chars@.len(),
            suffix == chars@.subrange(n as int, b as int),
            double == (exists|i: int| 0 <= i < k - n && suffix[i] == '2'),
            prime == (exists|i: int| 0 <= i < k - n && suffix[i] == '\''),
        decreases b - k,
    {
        let c = chars[k];
        assert(suffix[k - n] == c);
        if c == '2' {
            double = true;
        }
        if c == '\'' {
            prime = true;
        }
        k = k + 1;
    }
    assert(double == suffix.contains('2'));
    assert(prime == suffix.contains('\''));
    assert(t.take(n - a) =~= chars@.subrange(a as int, n as int));
    // Quarter-turn (amount = 1) expansion of the base move.
    let quarter = match quarter_prims(s, chars, a, n, ms) {
        Ok(q) => q,
        Err(e) => {
            return Err(e);
        },
    };
    if double {
        push_all(out, &quarter);
        push_all(out, &quarter);
        assert(prim_views(out@) =~= prim_views(old(out)@) + (prim_views(quarter@) + prim_views(
            quarter@,
        )));
    } else if prime {
        // Inverse of a sequence: reverse the order and invert each step.
        push_reversed_inverse(out, &quarter);
        proof {
            let q = prim_views(quarter@);
            assert forall|i: int| 0 <= i < q.len() implies #[trigger] in_range(
                prim_tables(reversed_inverse(q)[i]),
            ) by {
                assert(in_range(prim_tables(q[q.len() - 1 - i])));
                lemma_inverse_in_range(prim_tables(q[q.len() - 1 - i]));
            }
        }
    } else {
        push_all(out, &quarter);
    }
    Ok(())
}

pub proof fn lemma_tokens_error_prefix(ws: Seq<Seq<char>>, k: int, ms: MoveSet)
    requires
        0 <= k <= ws.len(),
        tokens_spec(ws.take(k), ms) is Err,
    ensures
        tokens_spec(ws, ms) == tokens_spec(ws.take(k), ms),
    decreases ws.len(),
{
    if k < ws.len() {
        assert(ws.drop_last().take(k) =~= ws.take(k));
        lemma_tokens_error_prefix(ws.drop_last(), k, ms);
    } else {
        assert(ws.take(k) =~= ws);
    }
}

/// Parse an algorithm string into a sequence of plain face-move `FaceMove`s.
///
/// Rotations never permute pieces here: we track the running cube orientation
/// and, for each face turn, emit the equivalent fixed-frame turn (the
/// conjugate `orient · face · orient⁻¹`). Wide and slice moves are expanded to
/// a face turn plus the rotation they carry, so they feed through the same
/// machinery.
///
/// The output is a sequence of plain face turns. Any net cube rotation the alg
/// leaves behind (from wide/slice moves) is dropped: downstream
/// classification reorients over all 24 cube rotations anyway.
///
/// Returns `Err(ParseError::BigCube)` if any big-cube token is found;
/// otherwise the first token that fails decides the error.
pub fn parse_alg(s: &str, ms: &MoveSet) -> (r: Result<Vec<FaceMove>, ParseError>)
    requires
        parse_tables_in_range(*ms),
    ensures
        match parse_spec(s@, *ms) {
            Ok(v) => r is Ok && tables_of(r->Ok_0@) == v,
            Err(e) => r is Err && r->Err_0@ == e,
        },
        r is Ok ==> forall|i: int| 0 <= i < r->Ok_0@.len() ==> #[trigger] in_range(r->Ok_0@[i]@),
{
    let chars = collect_chars(s);
    let spans = word_spans(&chars);
    let ghost ws = words(s@);
    // Big-cube notation anywhere rejects the whole alg.
    let mut w: usize = 0;
    while w < spans.len()
        invariant
            chars@ == s@,
            ws == words(s@),
            w <= spans@.len() == ws.len(),
            forall|x: int|
                0 <= x < spans@.len() ==> {
                    let (a, b) = #[trigger] spans@[x];
                    &&& a < b <= chars@.len()
                    &&& chars@.subrange(a as int, b as int) == ws[x]
                },
            forall|x: int| 0 <= x < w ==> !(#[trigger] ws[x].len() > 0 && is_digit(ws[x][0])),
        decreases spans@.len() - w,
    {
        let (a, b) = spans[w];
        assert(ws[w as int][0] == chars@[a as int]);
        if is_digit_char(chars[a]) {
            return Err(ParseError::BigCube);
        }
        w = w + 1;
    }
    assert(!has_big_cube(ws));
    let mut prims: Vec<Prim> = Vec::new();
    let mut w: usize = 0;
    assert(ws.take(0) =~= Seq::<Seq<char>>::empty());
    assert(prim_views(prims@) =~= Seq::<PrimModel>::empty());
    while w < spans.len()
        invariant
            chars@ == s@,
            ws == words(s@),
            parse_tables_in_range(*ms),
            w <= spans@.len() == ws.len(),
            forall|x: int|
                0 <= x < spans@.len() ==> {
                    let (a, b) = #[trigger] spans@[x];
                    &&& a < b <= chars@.len()
                    &&& chars@.subrange(a as int, b as int) == ws[x]
                },
            tokens_spec(ws.take(w as int), *ms) == Ok::<Seq<PrimModel>, ParseFailure>(
                prim_views(prims@),
            ),
            !has_big_cube(ws),
            prims_in_range(prim_views(prims@)),
        decreases spans@.len() - w,
    {
        let (a, b) = spans[w];
        let ghost before = prim_views(prims@);
        assert(ws.take(w + 1).drop_last() =~= ws.take(w as int));
        assert(ws.take(w + 1).last() == ws[w as int]);
        match token_prims(s, &chars, a, b, ms, &mut prims) {
            Ok(()) => {
                proof {
                    let q = token_spec(ws[w as int], *ms)->Ok_0;
                    assert forall|i: int| 0 <= i < prim_views(prims@).len() implies #[trigger] in_range(
                        prim_tables(prim_views(prims@)[i]),
                    ) by {
                        if i < before.len() {
                            assert(prim_views(prims@)[i] == before[i]);
                        } else {
                            assert(prim_views(prims@)[i] == q[i - before.len()]);
                        }
                    }
                }
            },
            Err(e) => {
                proof {
                    lemma_tokens_error_prefix(ws, w + 1, *ms);
                }
                return Err(e);
            },
        }
        w = w + 1;
    }
    assert(ws.take(ws.len() as int) =~= ws);
    let ghost p = prim_views(prims@);
    let mut out: Vec<FaceMove> = Vec::new();
    let mut orient = FaceMove::identity();
    let mut i: usize = 0;
    while i < prims.len()
        invariant
            p == prim_views(prims@),
            prims_in_range(p),
            i <= prims@.len(),
            frame(p, i as int) == (orient@, tables_of(out@)),
            in_range(orient@),
            forall|k: int| 0 <= k < out@.len() ==> #[trigger] in_range(out@[k]@),
        decreases prims@.len() - i,
    {
        let step = prims[i];
        assert(p[i as int] == step@);
        assert(in_range(prim_tables(p[i as int])));
        match step {
            // A rotation re-frames everything after it; it permutes no pieces
            // now, it just updates the running orientation.
            Prim::Rot(g) => {
                proof {
                    lemma_then_in_range(orient@, g@);
                }
                orient = orient.then_move(&g);
            },
            // A face turn in the current frame is that turn conjugated back
            // into the fixed frame.
            Prim::Face(m) => {
                proof {
                    lemma_then_in_range(orient@, m@);
                    lemma_inverse_in_range(orient@);
                    lemma_then_in_range(then_tables(orient@, m@), inverse_tables(orient@));
                }
                let turned = orient.then_move(&m).then_move(&orient.inverse());
                out.push(turned);
                assert(tables_of(out@) =~= frame(p, i as int).1.push(turned@));
            },
        }
        i = i + 1;
    }
    // The net rotation left in `orient` is dropped.
    Ok(out)
}

/// Invert a sequence of moves (reverse + invert each).
pub fn invert_alg(moves: &[FaceMove]) -> (r: Vec<FaceMove>)
    requires
        forall|i: int| 0 <= i < moves@.len() ==> #[trigger] inverse_ok(moves@[i]@),
    ensures
        tables_of(r@) == inverted(tables_of(moves@)),
{
    let n = moves.len();
    let mut r: Vec<FaceMove> = Vec::new();
    let ghost want = inverted(tables_of(moves@));
    for i in 0..n
        invariant
            n == moves@.len(),
            forall|i: int| 0 <= i < moves@.len() ==> #[trigger] inverse_ok(moves@[i]@),
            want == inverted(tables_of(moves@)),
            tables_of(r@) == want.take(i as int),
    {
        let m = moves[n - 1 - i].inverse();
        let ghost prev = r@;
        r.push(m);
        assert(tables_of(r@) =~= tables_of(prev).push(m@));
        assert(want.take(i + 1) =~= want.take(i as int).push(want[i as int]));
    }
    assert(want.take(n as int) =~= want);
    r
}

/// The move is one of U, U', U2.
pub open spec fn u_family_spec(t: Tables, ms: MoveSet) -> bool {
    t == ms.u@ || t == ms.up@ || t == ms.u2@
}

/// The move is one of the nine whole-cube rotations.
pub open spec fn rotation_spec(t: Tables, ms: MoveSet) -> bool {
    ||| t == ms.x@
    ||| t == ms.xp@
    ||| t == ms.x2@
    ||| t == ms.y@
    ||| t == ms.yp@
    ||| t == ms.y2@
    ||| t == ms.z@
    ||| t == ms.zp@
    ||| t == ms.z2@
}

/// The move is an AUF (a U-family turn) or a whole-cube rotation.
pub open spec fn auf_spec(t: Tables, ms: MoveSet) -> bool {
    u_family_spec(t, ms) || rotation_spec(t, ms)
}

/// Returns true if this move is a U-family move (U/U'/U2) or a
/// whole-cube rotation (x/y/z family). Used for stripping.
pub fn is_auf(m: &FaceMove, ms: &MoveSet) -> (r: bool)
    ensures
        r == auf_spec(m@, *ms),
{
    is_u_family(m, ms) || is_rotation(m, ms)
}

/// Returns true if this move is U, U' or U2.
pub fn is_u_family(m: &FaceMove, ms: &MoveSet) -> (r: bool)
    ensures
        r == u_family_spec(m@, *ms),
{
    moves_eq(m, &ms.u) || moves_eq(m, &ms.up) || moves_eq(m, &ms.u2)
}

/// Returns true if this move is one of x, x', x2, y, y', y2, z, z', z2.
pub fn is_rotation(m: &FaceMove, ms: &MoveSet) -> (r: bool)
    ensures
        r == rotation_spec(m@, *ms),
{
    moves_eq(m, &ms.x) || moves_eq(m, &ms.xp) || moves_eq(m, &ms.x2) || moves_eq(m, &ms.y)
        || moves_eq(m, &ms.yp) || moves_eq(m, &ms.y2) || moves_eq(m, &ms.z) || moves_eq(m, &ms.zp)
        || moves_eq(m, &ms.z2)
}

} // verus!
