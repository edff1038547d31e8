//! Properties of the canonical truth-table columns and of deduplication:
//! column shapes, flip counts, the alternation of the rightmost column, the
//! halving of the leftmost column, and determinism of generation.

use vstd::arithmetic::div_mod::{lemma_div_basics, lemma_fundamental_div_mod_converse_div};
use vstd::arithmetic::power2::{
    lemma2_to64, lemma_pow2_adds, lemma_pow2_pos, lemma_pow2_unfold, pow2,
};
use vstd::prelude::*;

use crate::generator::{
    cell_value, column_values, dedup_names, lemma_div_step, TruthTable,
};

verus! {

/// How often a column changes value: the number of positions where two
/// consecutive entries differ.
pub open spec fn flip_count(col: Seq<bool>) -> nat
    decreases col.len(),
{
    if col.len() <= 1 {
        0
    } else {
        flip_count(col.drop_last()) + if col[col.len() - 2] != col[col.len() - 1] {
            1nat
        } else {
            0nat
        }
    }
}

/// In the first `m` rows of the column at position `i` among `n`, the value
/// has flipped once for every completed group of `2^(n-1-i)` rows.
proof fn lemma_flip_count_prefix(n: nat, i: nat, m: nat)
    requires
        i < n,
        1 <= m <= pow2(n),
    ensures
        flip_count(column_values(n, i).take(m as int)) == (m - 1) as nat / pow2(
            (n - i - 1) as nat,
        ),
    decreases m,
{
    let g = pow2((n - i - 1) as nat);
    lemma_pow2_pos((n - i - 1) as nat);
    let col = column_values(n, i);
    if m == 1 {
        assert(col.take(1).len() == 1);
        lemma_div_basics(g as int);
    } else {
        lemma_flip_count_prefix(n, i, (m - 1) as nat);
        let p = col.take(m as int);
        assert(p.drop_last() =~= col.take(m - 1));
        assert(p[m - 1] == cell_value(n, i, (m - 1) as nat));
        assert(p[m - 2] == cell_value(n, i, (m - 2) as nat));
        lemma_div_step((m - 2) as int, g as int);
    }
}

/// The column at position `i` among `n` propositions starts true and flips
/// exactly `2^n / 2^(n-1-i) - 1` times over all `2^n` rows: once at the end
/// of every group of `2^(n-1-i)` rows except the last.
pub proof fn lemma_column_flip_count(n: nat, i: nat)
    requires
        i < n,
    ensures
        column_values(n, i)[0] == true,
        flip_count(column_values(n, i)) == pow2(n) / pow2((n - i - 1) as nat) - 1,
        pow2(n) / pow2((n - i - 1) as nat) == pow2((i + 1) as nat),
{
    lemma_div_basics(pow2((n - i - 1) as nat) as int);
    let g = pow2((n - i - 1) as nat);
    let h = pow2((i + 1) as nat);
    lemma_pow2_pos((n - i - 1) as nat);
    lemma_pow2_pos((i + 1) as nat);
    lemma_pow2_adds((n - i - 1) as nat, (i + 1) as nat);
    lemma_pow2_pos(n);
    lemma_flip_count_prefix(n, i, pow2(n));
    assert(column_values(n, i).take(pow2(n) as int) =~= column_values(n, i));
    assert(g * h - 1 == (h - 1) * g + (g - 1)) by (nonlinear_arith)
        requires
            g >= 1,
            h >= 1,
    ;
    lemma_fundamental_div_mod_converse_div(g * h - 1, g as int, h - 1, g - 1);
    assert(g * h == h * g + 0) by (nonlinear_arith);
    lemma_fundamental_div_mod_converse_div(g as int * h as int, g as int, h as int, 0);
}

/// The rightmost column (position `n-1`) alternates true/false every single
/// row, starting true: its value in row `r` is true exactly for even `r`.
pub proof fn lemma_rightmost_alternates(n: nat)
    requires
        1 <= n,
    ensures
        forall|r: int|
            0 <= r < pow2(n) ==> ((#[trigger] column_values(n, (n - 1) as nat)[r]) == (r % 2
                == 0)),
{
    lemma2_to64();
    assert forall|r: int| 0 <= r < pow2(n) implies ((#[trigger] column_values(n, (n - 1) as nat)[r])
        == (r % 2 == 0)) by {
        assert(column_values(n, (n - 1) as nat)[r] == cell_value(n, (n - 1) as nat, r as nat));
        assert(pow2((n - (n - 1) - 1) as nat) == 1);
        lemma_div_basics(r);
    }
}

/// The leftmost column (position 0) is true for the first half of the rows
/// and false for the second half.
pub proof fn lemma_leftmost_halves(n: nat)
    requires
        1 <= n,
    ensures
        forall|r: int|
            0 <= r < pow2(n) ==> ((#[trigger] column_values(n, 0)[r]) == (r < pow2(
                (n - 1) as nat,
            ))),
{
    let g = pow2((n - 1) as nat);
    lemma_pow2_pos((n - 1) as nat);
    lemma_pow2_unfold(n);
    assert forall|r: int| 0 <= r < pow2(n) implies ((#[trigger] column_values(n, 0)[r]) == (r
        < g)) by {
        assert(column_values(n, 0)[r] == cell_value(n, 0, r as nat));
        if r < g {
            lemma_fundamental_div_mod_converse_div(r, g as int, 0, r);
        } else {
            lemma_fundamental_div_mod_converse_div(r, g as int, 1, r - g);
        }
    }
}

/// Deduplication keeps a list of distinct names exactly as it is.
pub proof fn lemma_dedup_distinct_identity(s: Seq<Seq<char>>)
    requires
        s.no_duplicates(),
    ensures
        dedup_names(s) == s,
    decreases s.len(),
{
    if s.len() == 0 {
        assert(dedup_names(s) =~= s);
    } else {
        assert(s.drop_last().no_duplicates()) by {
            assert(forall|k: int| 0 <= k < s.len() - 1 ==> s.drop_last()[k] == s[k]);
        }
        lemma_dedup_distinct_identity(s.drop_last());
        assert(!s.drop_last().contains(s.last())) by {
            if s.drop_last().contains(s.last()) {
                let k = choose|k: int| 0 <= k < s.len() - 1 && s.drop_last()[k] == s.last();
                assert(s[k] == s[s.len() - 1]);
            }
        }
        assert(dedup_names(s) == s.drop_last().push(s.last()));
        assert(s.drop_last().push(s.last()) =~= s);
    }
}

/// With `N` distinct proposition names, a well-formed generated table has
/// exactly `N` columns and every column has exactly `2^N` rows.
pub proof fn lemma_distinct_names_table_shape(names: Seq<Seq<char>>, t: TruthTable)
    requires
        names.no_duplicates(),
        t.wf(),
        t.prop_names() == dedup_names(names),
    ensures
        t.num_props() == names.len(),
        t.columns@.len() == names.len(),
        t.num_rows() == pow2(names.len()),
        forall|i: int|
            0 <= i < names.len() ==> (#[trigger] t.column_bools(i)).len() == pow2(names.len()),
{
    lemma_dedup_distinct_identity(names);
    assert(t.num_props() == t.prop_names().len());
    assert forall|i: int| 0 <= i < names.len() implies (#[trigger] t.column_bools(i)).len()
        == pow2(names.len()) by {
        assert(t.column_bools(i) == column_values(t.num_props(), i as nat));
    }
}

/// Generation is deterministic: two well-formed tables over the same
/// proposition names agree on the number of rows and on every value of every
/// column.  The output depends only on the input names, never on the
/// iteration order of an intermediate structure.
pub proof fn lemma_generation_deterministic(t1: TruthTable, t2: TruthTable)
    requires
        t1.wf(),
        t2.wf(),
        t1.prop_names() == t2.prop_names(),
    ensures
        t1.num_props() == t2.num_props(),
        t1.num_rows() == t2.num_rows(),
        forall|i: int| 0 <= i < t1.num_props() ==> t1.column_bools(i) == t2.column_bools(i),
{
    assert(t1.num_props() == t1.prop_names().len());
    assert(t2.num_props() == t2.prop_names().len());
    assert forall|i: int| 0 <= i < t1.num_props() implies t1.column_bools(i) == t2.column_bools(
        i,
    ) by {
        assert(t1.column_bools(i) == column_values(t1.num_props(), i as nat));
        assert(t2.column_bools(i) == column_values(t2.num_props(), i as nat));
    }
}

} // verus!
