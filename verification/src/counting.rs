//! Counting tables: there are finitely many tables of the cube's shape, so
//! a list of distinct ones is bounded.  This bounds the closure search over
//! cube rotations.
use vstd::prelude::*;
use vstd::set_lib::{lemma_int_range, lemma_len_subset, set_int_range};

use crate::model::{shaped, Tables};

verus! {

/// `256^n`, the number of byte sequences of length `n`.
pub open spec fn byte_space(n: nat) -> nat
    decreases n,
{
    if n == 0 {
        1
    } else {
        256 * byte_space((n - 1) as nat)
    }
}

/// The entries of the four tables, one after the other.
pub open spec fn flat(t: Tables) -> Seq<u8> {
    t.cp + t.co + t.ep + t.eo
}

/// A byte sequence read as a number in base 256, first entry lowest.
pub open spec fn base256(s: Seq<u8>) -> nat
    decreases s.len(),
{
    if s.len() == 0 {
        0
    } else {
        s[0] as nat + 256 * base256(s.drop_first())
    }
}

/// The number of a table: its entries read in base 256.
pub open spec fn code(t: Tables) -> nat {
    base256(flat(t))
}

/// The number of tables of the cube's shape: 40 entries of one byte each.
pub open spec fn table_count() -> nat {
    byte_space(40)
}

proof fn lemma_base256_bound(s: Seq<u8>)
    ensures
        base256(s) < byte_space(s.len()),
    decreases s.len(),
{
    if s.len() > 0 {
        lemma_base256_bound(s.drop_first());
        let r = base256(s.drop_first());
        let p = byte_space(s.drop_first().len());
        assert(s[0] as nat + 256 * r < 256 * p) by (nonlinear_arith)
            requires
                s[0] < 256,
                r < p,
        ;
    }
}

proof fn lemma_base256_injective(a: Seq<u8>, b: Seq<u8>)
    requires
        a.len() == b.len(),
        base256(a) == base256(b),
    ensures
        a == b,
    decreases a.len(),
{
    if a.len() > 0 {
        let ra = base256(a.drop_first());
        let rb = base256(b.drop_first());
        let x = a[0] as int;
        let y = b[0] as int;
        assert(x == y && ra == rb) by (nonlinear_arith)
            requires
                0 <= x < 256,
                0 <= y < 256,
                ra >= 0,
                rb >= 0,
                x + 256 * ra == y + 256 * rb,
        ;
        lemma_base256_injective(a.drop_first(), b.drop_first());
        assert(a =~= seq![a[0]] + a.drop_first());
        assert(b =~= seq![b[0]] + b.drop_first());
    }
}

/// Two tables of the cube's shape with the same number are equal.
pub proof fn lemma_code_injective(a: Tables, b: Tables)
    requires
        shaped(a),
        shaped(b),
        code(a) == code(b),
    ensures
        a == b,
{
    lemma_base256_injective(flat(a), flat(b));
    let fa = flat(a);
    let fb = flat(b);
    assert(a.cp =~= fa.subrange(0, 8));
    assert(b.cp =~= fb.subrange(0, 8));
    assert(a.co =~= fa.subrange(8, 16));
    assert(b.co =~= fb.subrange(8, 16));
    assert(a.ep =~= fa.subrange(16, 28));
    assert(b.ep =~= fb.subrange(16, 28));
    assert(a.eo =~= fa.subrange(28, 40));
    assert(b.eo =~= fb.subrange(28, 40));
    assert(a =~= b);
}

/// A table of the cube's shape has a number below `table_count()`.
pub proof fn lemma_code_bound(t: Tables)
    requires
        shaped(t),
    ensures
        code(t) < table_count(),
{
    lemma_base256_bound(flat(t));
    assert(flat(t).len() == 40);
}

/// A list of distinct tables of the cube's shape has at most
/// `table_count()` entries.
pub proof fn lemma_distinct_tables_bound(ts: Seq<Tables>)
    requires
        forall|i: int| 0 <= i < ts.len() ==> #[trigger] shaped(ts[i]),
        forall|i: int, j: int| 0 <= i < j < ts.len() ==> ts[i] != ts[j],
    ensures
        ts.len() <= table_count(),
{
    let codes = ts.map_values(|t: Tables| code(t) as int);
    assert(codes.no_duplicates()) by {
        assert forall|i: int, j: int| 0 <= i < codes.len() && 0 <= j < codes.len() && i != j implies codes[i]
            != codes[j] by {
            if codes[i] == codes[j] {
                assert(shaped(ts[i]) && shaped(ts[j]));
                lemma_code_injective(ts[i], ts[j]);
                if i < j {
                    assert(ts[i] != ts[j]);
                } else {
                    assert(ts[j] != ts[i]);
                }
            }
        }
    }
    codes.unique_seq_to_set();
    let n = table_count() as int;
    lemma_int_range(0, n);
    assert(codes.to_set().subset_of(set_int_range(0, n))) by {
        assert forall|x: int| codes.to_set().contains(x) implies set_int_range(0, n).contains(x) by {
            let k = choose|k: int| 0 <= k < codes.len() && codes[k] == x;
            assert(shaped(ts[k]));
            lemma_code_bound(ts[k]);
        }
    }
    lemma_len_subset(codes.to_set(), set_int_range(0, n));
}

} // verus!
