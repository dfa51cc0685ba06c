//! The mathematical model of a cubie table.
//!
//! A move and a cube state are both described by four tables: the corner
//! permutation `cp` and orientation `co` (8 entries each) and the edge
//! permutation `ep` and orientation `eo` (12 entries each).  The spec
//! functions here say what applying, composing and inverting such tables
//! means, for every table the executable code accepts.
use vstd::prelude::*;

verus! {

/// The four cubie tables of a move or of a cube state.
#[verifier::ext_equal]
pub struct Tables {
    pub cp: Seq<u8>,
    pub co: Seq<u8>,
    pub ep: Seq<u8>,
    pub eo: Seq<u8>,
}

/// The tables have the lengths of a 3x3x3 cube: 8 corners and 12 edges.
pub open spec fn shaped(t: Tables) -> bool {
    &&& t.cp.len() == 8
    &&& t.co.len() == 8
    &&& t.ep.len() == 12
    &&& t.eo.len() == 12
}

/// Every entry lies in its range: slots below 8 (corners) or 12 (edges),
/// corner orientations below 3, edge orientations below 2.
pub open spec fn in_range(t: Tables) -> bool {
    &&& shaped(t)
    &&& forall|i: int|
        #![trigger t.cp[i]]
        #![trigger t.co[i]]
        0 <= i < 8 ==> t.cp[i] < 8 && t.co[i] < 3
    &&& forall|i: int|
        #![trigger t.ep[i]]
        #![trigger t.eo[i]]
        0 <= i < 12 ==> t.ep[i] < 12 && t.eo[i] < 2
}

/// The twists are below 3 and the flips below 2; the position entries may
/// be anything.
pub open spec fn orientations_bounded(t: Tables) -> bool {
    &&& shaped(t)
    &&& forall|i: int| 0 <= i < 8 ==> #[trigger] t.co[i] < 3
    &&& forall|i: int| 0 <= i < 12 ==> #[trigger] t.eo[i] < 2
}

/// A genuine move or cube state: entries in range and both position
/// tables are permutations.
pub open spec fn valid(t: Tables) -> bool {
    &&& in_range(t)
    &&& t.cp.no_duplicates()
    &&& t.ep.no_duplicates()
}

/// `0, 1, ..., n - 1`.
pub open spec fn iota(n: int) -> Seq<u8> {
    Seq::new(n as nat, |i: int| i as u8)
}

/// `n` zeros.
pub open spec fn zeros(n: int) -> Seq<u8> {
    Seq::new(n as nat, |i: int| 0u8)
}

/// The identity move, which is also the solved cube.
pub open spec fn identity_tables() -> Tables {
    Tables { cp: iota(8), co: zeros(8), ep: iota(12), eo: zeros(12) }
}

// ── composition ("apply a, then b") ────────────────────────────────────────

/// Composing `a` with `b` reads each entry of `b` through `a`'s slots and
/// does not overflow a byte.
pub open spec fn then_ok(a: Tables, b: Tables) -> bool {
    &&& shaped(a)
    &&& shaped(b)
    &&& forall|i: int| 0 <= i < 8 ==> #[trigger] a.cp[i] < 8 && a.co[i] + b.co[a.cp[i] as int] < 256
    &&& forall|i: int| 0 <= i < 12 ==> #[trigger] a.ep[i] < 12 && a.eo[i] + b.eo[a.ep[i] as int]
        < 256
}

/// The move "first `a`, then `b`": the piece leaving slot `i` goes where `b`
/// sends `a`'s destination, and picks up both orientation deltas.
pub open spec fn then_tables(a: Tables, b: Tables) -> Tables {
    Tables {
        cp: Seq::new(8, |i: int| b.cp[a.cp[i] as int]),
        co: Seq::new(8, |i: int| ((a.co[i] + b.co[a.cp[i] as int]) % 3) as u8),
        ep: Seq::new(12, |i: int| b.ep[a.ep[i] as int]),
        eo: Seq::new(12, |i: int| ((a.eo[i] + b.eo[a.ep[i] as int]) % 2) as u8),
    }
}

// ── scattering ("the piece at slot i moves to slot dst[i]") ───────────────

/// The last position below `n` at which `dst` holds `j`, or -1.
pub open spec fn last_index(dst: Seq<u8>, j: int, n: int) -> int
    decreases n,
{
    if n <= 0 {
        -1
    } else if dst[n - 1] == j {
        n - 1
    } else {
        last_index(dst, j, n - 1)
    }
}

/// Writing `vals[i]` to position `dst[i]` for `i = 0 .. n - 1` in turn, over
/// `default`: a position keeps its default unless some `i < n` targets it,
/// and then holds the value of the last such `i`.
pub open spec fn scatter_upto(dst: Seq<u8>, vals: Seq<u8>, default: Seq<u8>, n: int) -> Seq<u8> {
    Seq::new(
        default.len(),
        |j: int|
            {
                let k = last_index(dst, j, n);
                if k >= 0 {
                    vals[k]
                } else {
                    default[j]
                }
            },
    )
}

/// Writing `vals[i]` to position `dst[i]` for every `i` of `dst`, in order.
pub open spec fn scatter(dst: Seq<u8>, vals: Seq<u8>, default: Seq<u8>) -> Seq<u8> {
    scatter_upto(dst, vals, default, dst.len() as int)
}

// ── applying a move to a cube state ───────────────────────────────────────

/// Applying `m` to `s` indexes within the tables and does not overflow.
pub open spec fn apply_ok(s: Tables, m: Tables) -> bool {
    &&& shaped(s)
    &&& shaped(m)
    &&& forall|i: int| 0 <= i < 8 ==> #[trigger] m.cp[i] < 8 && s.co[i] + m.co[i] < 256
    &&& forall|i: int| 0 <= i < 12 ==> #[trigger] m.ep[i] < 12 && s.eo[i] + m.eo[i] < 256
}

/// Corner orientations after the move, indexed by the slot they leave.
pub open spec fn moved_co(s: Tables, m: Tables) -> Seq<u8> {
    Seq::new(8, |i: int| ((s.co[i] + m.co[i]) % 3) as u8)
}

/// Edge orientations after the move, indexed by the slot they leave.
pub open spec fn moved_eo(s: Tables, m: Tables) -> Seq<u8> {
    Seq::new(12, |i: int| ((s.eo[i] + m.eo[i]) % 2) as u8)
}

/// The state after move `m`: the piece in slot `i` moves to slot `m.cp[i]`
/// (resp. `m.ep[i]`) and its orientation gains `m`'s delta; a slot that no
/// piece moves into holds piece 0 with orientation 0.
pub open spec fn apply_tables(s: Tables, m: Tables) -> Tables {
    Tables {
        cp: scatter(m.cp, s.cp, zeros(8)),
        co: scatter(m.cp, moved_co(s, m), zeros(8)),
        ep: scatter(m.ep, s.ep, zeros(12)),
        eo: scatter(m.ep, moved_eo(s, m), zeros(12)),
    }
}

/// Each move in turn can be applied to the state the previous ones left.
pub open spec fn apply_all_ok(s: Tables, ms: Seq<Tables>) -> bool
    decreases ms.len(),
{
    if ms.len() == 0 {
        true
    } else {
        apply_all_ok(s, ms.drop_last()) && apply_ok(apply_all(s, ms.drop_last()), ms.last())
    }
}

/// The state after applying every move of `ms`, first to last.
pub open spec fn apply_all(s: Tables, ms: Seq<Tables>) -> Tables
    decreases ms.len(),
{
    if ms.len() == 0 {
        s
    } else {
        apply_tables(apply_all(s, ms.drop_last()), ms.last())
    }
}

/// `m` applied `k` times.
pub open spec fn apply_repeat(s: Tables, m: Tables, k: nat) -> Tables
    decreases k,
{
    if k == 0 {
        s
    } else {
        apply_tables(apply_repeat(s, m, (k - 1) as nat), m)
    }
}

// ── inverse ──────────────────────────────────────────────────────────────

/// Inverting `m` indexes within the tables and does not underflow.
pub open spec fn inverse_ok(m: Tables) -> bool {
    &&& shaped(m)
    &&& forall|i: int| 0 <= i < 8 ==> #[trigger] m.cp[i] < 8 && m.co[i] <= 3
    &&& forall|i: int| 0 <= i < 12 ==> #[trigger] m.ep[i] < 12
}

/// The orientation delta that undoes corner `i`'s delta.
pub open spec fn undo_co(m: Tables) -> Seq<u8> {
    Seq::new(8, |i: int| ((3 - m.co[i]) % 3) as u8)
}

/// The inverse move: the piece that `m` sends from `i` to `m.cp[i]` is
/// sent back to `i`, with the opposite orientation delta; slots that `m`
/// moves nothing into are left as in the identity.
pub open spec fn inverse_tables(m: Tables) -> Tables {
    Tables {
        cp: scatter(m.cp, iota(8), iota(8)),
        co: scatter(m.cp, undo_co(m), zeros(8)),
        ep: scatter(m.ep, iota(12), iota(12)),
        eo: scatter(m.ep, m.eo, zeros(12)),
    }
}

/// The moves of `ms` reversed, each inverted: the sequence that undoes `ms`.
pub open spec fn inverted(ms: Seq<Tables>) -> Seq<Tables> {
    Seq::new(ms.len(), |i: int| inverse_tables(ms[ms.len() - 1 - i]))
}

} // verus!
