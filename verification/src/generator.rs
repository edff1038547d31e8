//! Assignment generation: all `2^N` truth assignments for `N` propositions,
//! in canonical truth-table order.
//!
//! The proposition at position `i` (0-indexed from the left) holds groups of
//! `2^(N-1-i)` equal values before flipping, starting true, so the leftmost
//! column toggles slowest and the rightmost toggles every row.  Duplicate
//! proposition names are removed first, keeping first occurrences, so repeated
//! tokens collapse to one column.

use vstd::arithmetic::div_mod::{
    lemma_fundamental_div_mod, lemma_fundamental_div_mod_converse_div,
    lemma_fundamental_div_mod_converse_mod, lemma_mod_bound,
};
use vstd::arithmetic::power2::{
    lemma2_to64, lemma_pow2_pos, lemma_pow2_strictly_increases, lemma_pow2_unfold, pow2,
};
use vstd::prelude::*;

use crate::truth_value::TruthValue;

verus! {

/// The largest proposition count for which a row counter cannot overflow:
/// `2^31` rows still fit a 32-bit row index.
pub const MAX_PROPOSITIONS: usize = 31;

/// Returned when the proposition count is so large that the `2^N` row count
/// would overflow the row counter.
#[derive(Clone, Copy, Debug, PartialEq, Eq, Structural)]
pub struct OverflowError;

/// The truth value of row `r` for the proposition at position `i` among `n`:
/// true iff bit `n-1-i` of `r` is 0, so the value flips every `2^(n-1-i)` rows,
/// starting true.
pub open spec fn cell_value(n: nat, i: nat, r: nat) -> bool
    recommends
        i < n,
{
    (r / pow2((n - i - 1) as nat)) % 2 == 0
}

/// The full column of the proposition at position `i` among `n`: one truth
/// value for each of the `2^n` rows.
pub open spec fn column_values(n: nat, i: nat) -> Seq<bool>
    recommends
        i < n,
{
    Seq::new(pow2(n), |r: int| cell_value(n, i, r as nat))
}

/// Removes duplicates, keeping the first occurrence of each name in order.
pub open spec fn dedup_names(s: Seq<Seq<char>>) -> Seq<Seq<char>>
    decreases s.len(),
{
    if s.len() == 0 {
        Seq::<Seq<char>>::empty()
    } else {
        let d = dedup_names(s.drop_last());
        if d.contains(s.last()) {
            d
        } else {
            d.push(s.last())
        }
    }
}

/// A complete truth table: an ordered list of distinct proposition names and,
/// for each, its column of `2^N` truth values.  Column order always follows
/// the proposition list, never any intermediate lookup structure.
pub struct TruthTable {
    pub propositions: Vec<String>,
    pub columns: Vec<Vec<TruthValue>>,
}

impl TruthTable {
    /// The proposition names, as sequences of characters.
    pub open spec fn prop_names(self) -> Seq<Seq<char>> {
        self.propositions.deep_view()
    }

    /// The number of columns.
    pub open spec fn num_props(self) -> nat {
        self.propositions@.len()
    }

    /// The number of rows: `2^N` for `N` propositions.
    pub open spec fn num_rows(self) -> nat {
        pow2(self.num_props())
    }

    /// The booleans of column `i`, top to bottom.
    pub open spec fn column_bools(self, i: int) -> Seq<bool>
        recommends
            0 <= i < self.columns@.len(),
    {
        self.columns@[i]@.map_values(|t: TruthValue| t.0)
    }

    /// Well-formedness: distinct names, a row count that fits, one column per
    /// name, and every column equal to the canonical one for its position.
    pub open spec fn wf(self) -> bool {
        &&& self.prop_names().no_duplicates()
        &&& self.num_props() <= MAX_PROPOSITIONS
        &&& self.columns@.len() == self.num_props()
        &&& forall|i: int|
            0 <= i < self.num_props() ==> #[trigger] self.column_bools(i) == column_values(
                self.num_props(),
                i as nat,
            )
    }

    /// Number of columns, one per deduplicated proposition.
    pub fn column_count(&self) -> (c: usize)
        ensures
            c == self.num_props(),
    {
        self.propositions.len()
    }

    /// Number of rows: `2^N` for `N` propositions.
    pub fn row_count(&self) -> (r: usize)
        requires
            self.num_props() <= MAX_PROPOSITIONS,
        ensures
            r == self.num_rows(),
    {
        pow2_exec(self.propositions.len())
    }

    /// The truth value of column `i` in row `r`.
    pub fn value_at(&self, i: usize, r: usize) -> (v: TruthValue)
        requires
            self.wf(),
            i < self.num_props(),
            r < self.num_rows(),
        ensures
            v.0 == cell_value(self.num_props(), i as nat, r as nat),
    {
        proof {
            assert(self.column_bools(i as int) == column_values(self.num_props(), i as nat));
            assert(self.column_bools(i as int).len() == self.num_rows());
            assert(self.column_bools(i as int)[r as int] == cell_value(
                self.num_props(),
                i as nat,
                r as nat,
            ));
        }
        self.columns[i][r]
    }

    /// Decides well-formedness at run time.  A table built by [`generate`] is
    /// always well formed; a failed check therefore signals an internal
    /// consistency fault, which callers should treat as an unrecoverable
    /// defect rather than repair silently.
    pub fn check_well_formed(&self) -> (b: bool)
        ensures
            b == self.wf(),
    {
        let n = self.propositions.len();
        if n > MAX_PROPOSITIONS {
            return false;
        }
        if self.columns.len() != n {
            return false;
        }
        let mut i: usize = 0;
        while i < n
            invariant
                i <= n,
                n == self.propositions@.len(),
                forall|a: int, b: int|
                    0 <= a < b < i ==> self.prop_names()[a] != self.prop_names()[b],
            decreases n - i,
        {
            let mut j: usize = 0;
            while j < i
                invariant
                    j <= i < n,
                    n == self.propositions@.len(),
                    forall|k: int| 0 <= k < j ==> self.prop_names()[k] != self.prop_names()[i as int],
            decreases i - j,
            {
                if self.propositions[j].eq(&self.propositions[i]) {
                    proof {
                        assert(self.prop_names()[j as int] == self.prop_names()[i as int]);
                        assert(!self.prop_names().no_duplicates());
                    }
                    return false;
                }
                j = j + 1;
            }
            i = i + 1;
        }
        proof {
            assert forall|a: int, b: int|
                0 <= a < n && 0 <= b < n && a != b implies self.prop_names()[a]
                != self.prop_names()[b] by {
                if b < a {
                    assert(self.prop_names()[b] != self.prop_names()[a]);
                }
            }
        }
        let rows = pow2_exec(n);
        let mut i: usize = 0;
        while i < n
            invariant
                i <= n,
                n == self.propositions@.len(),
                n == self.columns@.len(),
                n <= MAX_PROPOSITIONS,
                rows == pow2(n as nat),
                self.prop_names().no_duplicates(),
                forall|j: int|
                    0 <= j < i ==> #[trigger] self.column_bools(j) == column_values(
                        n as nat,
                        j as nat,
                    ),
            decreases n - i,
        {
            if self.columns[i].len() != rows {
                proof {
                    assert(self.column_bools(i as int).len() != column_values(
                        n as nat,
                        i as nat,
                    ).len());
                }
                return false;
            }
            let group_size = pow2_exec(n - 1 - i);
            proof {
                lemma_pow2_pos((n - i - 1) as nat);
            }
            let mut r: usize = 0;
            while r < rows
                invariant
                    r <= rows,
                    i < n == self.propositions@.len(),
                    n == self.columns@.len(),
                    n <= MAX_PROPOSITIONS,
                    rows == pow2(n as nat),
                    self.columns@[i as int]@.len() == rows,
                    1 <= group_size == pow2((n - i - 1) as nat),
                    forall|k: int|
                        0 <= k < r ==> (#[trigger] self.columns@[i as int]@[k]).0 == cell_value(
                            n as nat,
                            i as nat,
                            k as nat,
                        ),
                decreases rows - r,
            {
                let expected = (r / group_size) % 2 == 0;
                if self.columns[i][r].0 != expected {
                    proof {
                        assert(self.column_bools(i as int)[r as int] != column_values(
                            n as nat,
                            i as nat,
                        )[r as int]);
                    }
                    return false;
                }
                r = r + 1;
            }
            proof {
                assert(self.column_bools(i as int) =~= column_values(n as nat, i as nat));
            }
            i = i + 1;
        }
        true
    }
}

/// Computes `2^k` exactly for `k` up to [`MAX_PROPOSITIONS`].
pub fn pow2_exec(k: usize) -> (r: usize)
    requires
        k <= MAX_PROPOSITIONS,
    ensures
        r == pow2(k as nat),
{
    let mut r: usize = 1;
    let mut j: usize = 0;
    proof {
        lemma2_to64();
    }
    while j < k
        invariant
            j <= k <= MAX_PROPOSITIONS,
            r == pow2(j as nat),
            pow2(MAX_PROPOSITIONS as nat) == 0x8000_0000,
        decreases k - j,
    {
        proof {
            lemma_pow2_unfold((j + 1) as nat);
            if j + 1 < MAX_PROPOSITIONS {
                lemma_pow2_strictly_increases((j + 1) as nat, MAX_PROPOSITIONS as nat);
            }
        }
        r = r * 2;
        j = j + 1;
    }
    r
}

/// For a positive divisor `g`, stepping the dividend by one leaves the
/// quotient unchanged, except when the new dividend is a multiple of `g`,
/// where the quotient grows by one.
pub proof fn lemma_div_step(r: int, g: int)
    requires
        0 <= r,
        0 < g,
    ensures
        (r + 1) % g == 0 ==> (r + 1) / g == r / g + 1,
        (r + 1) % g != 0 ==> (r + 1) / g == r / g,
{
    let q = r / g;
    let m = r % g;
    lemma_fundamental_div_mod(r, g);
    lemma_mod_bound(r, g);
    if m + 1 == g {
        assert(r + 1 == (q + 1) * g + 0) by (nonlinear_arith)
            requires
                r == g * q + m,
                m + 1 == g,
        ;
        lemma_fundamental_div_mod_converse_div(r + 1, g, q + 1, 0);
        lemma_fundamental_div_mod_converse_mod(r + 1, g, q + 1, 0);
    } else {
        assert(r + 1 == q * g + (m + 1)) by (nonlinear_arith)
            requires
                r == g * q + m,
        ;
        lemma_fundamental_div_mod_converse_div(r + 1, g, q, m + 1);
        lemma_fundamental_div_mod_converse_mod(r + 1, g, q, m + 1);
    }
}

/// True iff some element of `v` spells `name`.
fn contains_name(v: &Vec<String>, name: &String) -> (b: bool)
    ensures
        b == v.deep_view().contains(name@),
{
    let mut j: usize = 0;
    while j < v.len()
        invariant
            j <= v@.len(),
            forall|k: int| 0 <= k < j ==> v.deep_view()[k] != name@,
        decreases v@.len() - j,
    {
        let candidate: &String = &v[j];
        if candidate.eq(name) {
            proof {
                assert(v.deep_view()[j as int] == name@);
            }
            return true;
        }
        j = j + 1;
    }
    proof {
        assert(forall|k: int| 0 <= k < v.deep_view().len() ==> v.deep_view()[k] != name@);
    }
    false
}

/// Removes duplicate proposition names, keeping first occurrences in order.
pub fn dedup_props(props: &Vec<String>) -> (out: Vec<String>)
    ensures
        out.deep_view() == dedup_names(props.deep_view()),
{
    let mut out: Vec<String> = Vec::new();
    let mut idx: usize = 0;
    while idx < props.len()
        invariant
            idx <= props@.len(),
            out.deep_view() == dedup_names(props.deep_view().take(idx as int)),
        decreases props@.len() - idx,
    {
        proof {
            assert(props.deep_view().take(idx + 1).drop_last() =~= props.deep_view().take(
                idx as int,
            ));
            assert(props.deep_view().take(idx + 1).last() == props.deep_view()[idx as int]);
        }
        let p = &props[idx];
        if !contains_name(&out, p) {
            let owned: String = p.clone();
            out.push(owned);
            proof {
                assert(out.deep_view() =~= dedup_names(props.deep_view().take(idx as int)).push(
                    p@,
                ));
            }
        }
        idx = idx + 1;
    }
    proof {
        assert(props.deep_view().take(props@.len() as int) =~= props.deep_view());
    }
    out
}

/// Builds the full truth table for `props`: deduplicates the names, then
/// generates one canonical column per remaining proposition.  Fails exactly
/// when more than [`MAX_PROPOSITIONS`] distinct names remain, since the row
/// count `2^N` would then overflow the row counter.
pub fn generate(props: &Vec<String>) -> (result: Result<TruthTable, OverflowError>)
    ensures
        result is Ok <==> dedup_names(props.deep_view()).len() <= MAX_PROPOSITIONS,
        match result {
            Ok(t) => {
                &&& t.wf()
                &&& t.prop_names() == dedup_names(props.deep_view())
            },
            Err(_) => dedup_names(props.deep_view()).len() > MAX_PROPOSITIONS,
        },
{
    let names = dedup_props(props);
    let n = names.len();
    if n > MAX_PROPOSITIONS {
        return Err(OverflowError);
    }
    let mut columns: Vec<Vec<TruthValue>> = Vec::new();
    let mut i: usize = 0;
    while i < n
        invariant
            i <= n,
            n == names@.len(),
            n <= MAX_PROPOSITIONS,
            columns@.len() == i,
            forall|j: int|
                0 <= j < i ==> (#[trigger] columns@[j])@.map_values(|t: TruthValue| t.0)
                    == column_values(n as nat, j as nat),
        decreases n - i,
    {
        let column = generate_column(n, i);
        columns.push(column);
        i = i + 1;
    }
    let table = TruthTable { propositions: names, columns };
    proof {
        lemma_dedup_no_duplicates(props.deep_view());
        assert(forall|j: int|
            0 <= j < table.num_props() ==> #[trigger] table.column_bools(j) == column_values(
                table.num_props(),
                j as nat,
            ));
    }
    Ok(table)
}

/// One canonical column: `2^n` truth values for the proposition at position
/// `i`, built by the toggling scheme — start true, flip after every
/// `2^(n-1-i)` appended values.
fn generate_column(n: usize, i: usize) -> (col: Vec<TruthValue>)
    requires
        i < n,
        n <= MAX_PROPOSITIONS,
    ensures
        col@.map_values(|t: TruthValue| t.0) == column_values(n as nat, i as nat),
{
    let group_size = pow2_exec(n - 1 - i);
    let total_rows = pow2_exec(n);
    proof {
        lemma_pow2_pos((n - i - 1) as nat);
    }
    let mut col: Vec<TruthValue> = Vec::new();
    let mut truth_value = TruthValue::new();
    let mut row: usize = 0;
    while row < total_rows
        invariant
            row <= total_rows,
            col@.len() == row,
            1 <= group_size == pow2((n - i - 1) as nat),
            total_rows == pow2(n as nat),
            i < n <= MAX_PROPOSITIONS,
            forall|k: int|
                0 <= k < row ==> (#[trigger] col@[k]).0 == cell_value(n as nat, i as nat, k as nat),
            truth_value.0 == ((row as int / group_size as int) % 2 == 0),
        decreases total_rows - row,
    {
        col.push(truth_value);
        row = row + 1;
        proof {
            lemma_div_step(row - 1, group_size as int);
        }
        if row % group_size == 0 {
            truth_value.toggle();
        }
    }
    proof {
        assert(col@.map_values(|t: TruthValue| t.0) =~= column_values(n as nat, i as nat));
    }
    col
}

/// Deduplication never keeps a name twice, and keeps exactly the names of the
/// input: membership is preserved in both directions.
pub proof fn lemma_dedup_no_duplicates(s: Seq<Seq<char>>)
    ensures
        dedup_names(s).no_duplicates(),
        forall|x: Seq<char>| dedup_names(s).contains(x) <==> s.contains(x),
    decreases s.len(),
{
    if s.len() == 0 {
    } else {
        lemma_dedup_no_duplicates(s.drop_last());
        let d = dedup_names(s.drop_last());
        assert(forall|x: Seq<char>| s.drop_last().contains(x) ==> s.contains(x)) by {
            assert(forall|k: int|
                0 <= k < s.drop_last().len() ==> s.drop_last()[k] == s[k]);
        }
        assert forall|x: Seq<char>| s.contains(x) implies dedup_names(s).contains(x) by {
            let k = choose|k: int| 0 <= k < s.len() && s[k] == x;
            if k < s.len() - 1 {
                assert(s.drop_last()[k] == x);
                assert(s.drop_last().contains(x));
                assert(d.contains(x));
                if !d.contains(s.last()) {
                    assert(d.push(s.last())[choose|j: int| 0 <= j < d.len() && d[j] == x] == x);
                }
            } else {
                assert(x == s.last());
                if d.contains(s.last()) {
                } else {
                    assert(d.push(s.last()).last() == s.last());
                }
            }
        }
        if !d.contains(s.last()) {
            assert(dedup_names(s) == d.push(s.last()));
            assert(d.push(s.last()).no_duplicates()) by {
                assert(forall|k: int| 0 <= k < d.len() ==> #[trigger] d.push(s.last())[k] == d[k]);
                assert(d.push(s.last()).last() == s.last());
            }
        }
    }
}

} // verus!
