//! What the case fingerprints record: two cube states share a fingerprint
//! exactly when they agree on the pieces the fingerprint is about.
use vstd::prelude::*;

use crate::lemmas::lemma_onto;
use crate::model::{valid, Tables};
use crate::normalize::{lemma_first_pos, ll_fingerprint, slot_of, zbls_fingerprint};

verus! {

/// The two states agree on the last layer: the same piece, with the same
/// orientation, in each of the four U-layer corner slots and the four
/// U-layer edge slots.
pub open spec fn same_last_layer(a: Tables, b: Tables) -> bool {
    &&& forall|i: int| 0 <= i < 4 ==> #[trigger] a.cp[i] == b.cp[i] && a.co[i] == b.co[i]
    &&& forall|i: int| 0 <= i < 4 ==> #[trigger] a.ep[i] == b.ep[i] && a.eo[i] == b.eo[i]
}

/// The ZBLL fingerprint tells last layers apart, and nothing else: two
/// states have the same fingerprint exactly when they agree on the pieces
/// and orientations of the last layer.
pub proof fn law_ll_fingerprint_is_the_last_layer(a: Tables, b: Tables)
    ensures
        ll_fingerprint(a) == ll_fingerprint(b) <==> same_last_layer(a, b),
{
    let fa = ll_fingerprint(a);
    let fb = ll_fingerprint(b);
    if fa == fb {
        assert forall|i: int| 0 <= i < 4 implies #[trigger] a.cp[i] == b.cp[i] && a.co[i] == b.co[i] by {
            assert(fa[2 * i] == fb[2 * i]);
            assert(fa[2 * i + 1] == fb[2 * i + 1]);
            if i == 0 {
            } else if i == 1 {
            } else if i == 2 {
            } else {
            }
        }
        assert forall|i: int| 0 <= i < 4 implies #[trigger] a.ep[i] == b.ep[i] && a.eo[i] == b.eo[i] by {
            assert(fa[8 + 2 * i] == fb[8 + 2 * i]);
            assert(fa[8 + 2 * i + 1] == fb[8 + 2 * i + 1]);
            if i == 0 {
            } else if i == 1 {
            } else if i == 2 {
            } else {
            }
        }
    }
    if same_last_layer(a, b) {
        assert(a.cp[0] == b.cp[0] && a.co[0] == b.co[0]);
        assert(a.cp[1] == b.cp[1] && a.co[1] == b.co[1]);
        assert(a.cp[2] == b.cp[2] && a.co[2] == b.co[2]);
        assert(a.cp[3] == b.cp[3] && a.co[3] == b.co[3]);
        assert(a.ep[0] == b.ep[0] && a.eo[0] == b.eo[0]);
        assert(a.ep[1] == b.ep[1] && a.eo[1] == b.eo[1]);
        assert(a.ep[2] == b.ep[2] && a.eo[2] == b.eo[2]);
        assert(a.ep[3] == b.ep[3] && a.eo[3] == b.eo[3]);
        assert(fa =~= fb);
    }
}

/// In a sequence without repeats, the slot holding `x` is where `x` is.
proof fn lemma_slot_of_at(s: Seq<u8>, x: u8, k: int)
    requires
        s.no_duplicates(),
        0 <= k < s.len(),
        s[k] == x,
    ensures
        slot_of(s, x) == k,
{
    assert forall|i: int| 0 <= i < k implies #[trigger] s[i] != x by {
        assert(s[i] != s[k]);
    }
    lemma_first_pos(s, x, k);
}

/// The two states agree on what the ZBLS case is about: the orientations of
/// the four last-layer edge slots, the slot and orientation of the DFR
/// corner (piece 4), and the slot and orientation of the FR edge (piece 8).
pub open spec fn same_zbls_pieces(a: Tables, b: Tables) -> bool {
    &&& forall|i: int| 0 <= i < 4 ==> #[trigger] a.eo[i] == b.eo[i]
    &&& forall|k: int|
        0 <= k < 8 ==> (#[trigger] a.cp[k] == 4 <==> b.cp[k] == 4) && (a.cp[k] == 4 ==> a.co[k]
            == b.co[k])
    &&& forall|k: int|
        0 <= k < 12 ==> (#[trigger] a.ep[k] == 8 <==> b.ep[k] == 8) && (a.ep[k] == 8 ==> a.eo[k]
            == b.eo[k])
}

/// The ZBLS fingerprint of a genuine state tells apart exactly what the
/// ZBLS case is about: two genuine states have the same fingerprint exactly
/// when they agree on the last-layer edge orientations and on where the DFR
/// corner and the FR edge are and how they are turned.
pub proof fn law_zbls_fingerprint_is_the_pair(a: Tables, b: Tables)
    requires
        valid(a),
        valid(b),
    ensures
        zbls_fingerprint(a) == zbls_fingerprint(b) <==> same_zbls_pieces(a, b),
{
    assert forall|k: int| 0 <= k < a.cp.len() implies #[trigger] a.cp[k] < a.cp.len() by {
        assert(a.cp[k] < 8);
    }
    assert forall|k: int| 0 <= k < b.cp.len() implies #[trigger] b.cp[k] < b.cp.len() by {
        assert(b.cp[k] < 8);
    }
    assert forall|k: int| 0 <= k < a.ep.len() implies #[trigger] a.ep[k] < a.ep.len() by {
        assert(a.ep[k] < 12);
    }
    assert forall|k: int| 0 <= k < b.ep.len() implies #[trigger] b.ep[k] < b.ep.len() by {
        assert(b.ep[k] < 12);
    }
    let ca = lemma_onto(a.cp, 4);
    let cb = lemma_onto(b.cp, 4);
    let ea = lemma_onto(a.ep, 8);
    let eb = lemma_onto(b.ep, 8);
    lemma_slot_of_at(a.cp, 4, ca);
    lemma_slot_of_at(b.cp, 4, cb);
    lemma_slot_of_at(a.ep, 8, ea);
    lemma_slot_of_at(b.ep, 8, eb);
    let fa = zbls_fingerprint(a);
    let fb = zbls_fingerprint(b);
    assert(fa[4] == ca as u8 && fa[5] == a.co[ca] && fa[6] == ea as u8 && fa[7] == a.eo[ea]);
    assert(fb[4] == cb as u8 && fb[5] == b.co[cb] && fb[6] == eb as u8 && fb[7] == b.eo[eb]);
    if fa == fb {
        assert(ca == cb);
        assert(ea == eb);
        assert(fa[0] == fb[0] && fa[1] == fb[1] && fa[2] == fb[2] && fa[3] == fb[3]);
        assert forall|i: int| 0 <= i < 4 implies #[trigger] a.eo[i] == b.eo[i] by {
            if i == 0 {
            } else if i == 1 {
            } else if i == 2 {
            } else {
            }
        }
        assert forall|k: int| 0 <= k < 8 implies (#[trigger] a.cp[k] == 4 <==> b.cp[k] == 4) && (
        a.cp[k] == 4 ==> a.co[k] == b.co[k]) by {
            if a.cp[k] == 4 {
                assert(a.cp[k] == a.cp[ca]);
            }
            if b.cp[k] == 4 {
                assert(b.cp[k] == b.cp[cb]);
            }
        }
        assert forall|k: int| 0 <= k < 12 implies (#[trigger] a.ep[k] == 8 <==> b.ep[k] == 8) && (
        a.ep[k] == 8 ==> a.eo[k] == b.eo[k]) by {
            if a.ep[k] == 8 {
                assert(a.ep[k] == a.ep[ea]);
            }
            if b.ep[k] == 8 {
                assert(b.ep[k] == b.ep[eb]);
            }
        }
    }
    if same_zbls_pieces(a, b) {
        assert(a.cp[ca] == 4);
        assert(b.cp[ca] == 4);
        assert(b.cp[ca] == b.cp[cb]);
        assert(a.ep[ea] == 8);
        assert(b.ep[ea] == 8);
        assert(b.ep[ea] == b.ep[eb]);
        assert(a.eo[0] == b.eo[0] && a.eo[1] == b.eo[1] && a.eo[2] == b.eo[2] && a.eo[3] == b.eo[3]);
        assert(fa =~= fb);
    }
}

} // verus!
