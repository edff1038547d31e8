//! Rendering a [`TruthTable`] as text through the comfy-table crate.
//!
//! The verified logic decides what every cell holds — the header names in
//! input order, and the canonical `V`/`F` symbol with a green/red color for
//! every value, row by row in canonical order.  The trusted wrappers around
//! the comfy-table calls track that content through the uninterpreted names
//! [`cell_text`], [`table_cells`] and [`table_header`], so [`render`] can
//! promise that every proposition name and every cell symbol occurs in its
//! result.  How the text finally looks beyond that (borders, padding,
//! colors) may depend on the terminal, so nothing more is claimed.

use vstd::prelude::*;

use crate::generator::{cell_value, TruthTable};

verus! {

#[verifier::external_type_specification]
#[verifier::external_body]
pub struct ExTable(comfy_table::Table);

#[verifier::external_type_specification]
#[verifier::external_body]
pub struct ExCell(comfy_table::Cell);

/// The text a comfy_table::Cell shows, as Cell::content reports it: the text
/// the cell was created from, newlines included.
pub uninterp spec fn cell_text(c: comfy_table::Cell) -> Seq<char>;

/// The rows a comfy_table::Table holds, in the order they were added, each a
/// sequence of its cell texts.
pub uninterp spec fn table_cells(t: comfy_table::Table) -> Seq<Seq<Seq<char>>>;

/// The header of a comfy_table::Table: one text per header cell, in order.
pub uninterp spec fn table_header(t: comfy_table::Table) -> Seq<Seq<char>>;

/// Whether a comfy_table::Table still has the disabled content arrangement it
/// is created with, under which every column takes its full content width and
/// no text is ever wrapped or truncated.
pub uninterp spec fn plain_arrangement(t: comfy_table::Table) -> bool;

/// Texts of at most this many characters are never wrapped by comfy-table:
/// it caps a column's width at the largest 16-bit display width, and no
/// character is more than two display columns wide, so such a text always
/// stays under the cap.
pub const MAX_UNWRAPPED_TEXT_LEN: usize = 32767;

/// `needle` occurs verbatim in `hay`, starting at position `k`.
pub open spec fn occurs_at(needle: Seq<char>, hay: Seq<char>, k: int) -> bool {
    0 <= k && k + needle.len() <= hay.len() && hay.subrange(k, k + needle.len()) == needle
}

/// `needle` occurs verbatim somewhere in `hay`.
pub open spec fn occurs_in(needle: Seq<char>, hay: Seq<char>) -> bool {
    exists|k: int| #[trigger] occurs_at(needle, hay, k)
}

/// `first` occurs somewhere in `hay`, ending before an occurrence of
/// `second` starts.
pub open spec fn occurs_before(first: Seq<char>, second: Seq<char>, hay: Seq<char>) -> bool {
    exists|k1: int, k2: int|
        #[trigger] occurs_at(first, hay, k1) && #[trigger] occurs_at(second, hay, k2) && k1
            + first.len() <= k2
}

/// A text that one table line can show whole: no newline, and short enough
/// that comfy-table never wraps it.
pub open spec fn fits_one_line(s: Seq<char>) -> bool {
    !s.contains('\n') && s.len() <= MAX_UNWRAPPED_TEXT_LEN
}

/// The canonical cell text for a truth value: `V` for true, `F` for false.
pub open spec fn symbol_text(b: bool) -> Seq<char> {
    if b {
        "V"@
    } else {
        "F"@
    }
}

/// Relies on comfy_table::Table::new: a fresh table with no header, no rows
/// and the disabled content arrangement.
#[verifier::external_body]
fn table_new() -> (t: comfy_table::Table)
    ensures
        table_cells(t) == Seq::<Seq<Seq<char>>>::empty(),
        table_header(t) == Seq::<Seq<char>>::empty(),
        plain_arrangement(t),
{
    comfy_table::Table::new()
}

/// Relies on comfy_table::Table::load_style, applied with the UTF8_FULL
/// preset plus solid inner borders and rounded corners: it replaces the
/// border style only, touching neither header, rows nor arrangement.
#[verifier::external_body]
fn table_apply_style(table: &mut comfy_table::Table)
    ensures
        table_cells(*final(table)) == table_cells(*old(table)),
        table_header(*final(table)) == table_header(*old(table)),
        plain_arrangement(*final(table)) == plain_arrangement(*old(table)),
{
    table.load_style(
        comfy_table::presets::UTF8_FULL.with_solid_inner_borders().with_rounded_corners(),
    );
}

/// Relies on comfy_table::Table::set_header, with comfy_table::Cell::new
/// turning each name into one header cell in order: it replaces the header
/// and touches neither the rows nor the arrangement.
#[verifier::external_body]
fn table_set_header(table: &mut comfy_table::Table, names: &Vec<String>)
    ensures
        table_header(*final(table)) == names.deep_view(),
        table_cells(*final(table)) == table_cells(*old(table)),
        plain_arrangement(*final(table)) == plain_arrangement(*old(table)),
{
    table.set_header(names.iter().map(comfy_table::Cell::new).collect::<Vec<comfy_table::Cell>>());
}

/// Relies on comfy_table::Cell::new and comfy_table::Cell::fg: a cell showing
/// `text` in green; `fg` sets the foreground color only.
#[verifier::external_body]
fn green_cell(text: &str) -> (c: comfy_table::Cell)
    ensures
        cell_text(c) == text@,
{
    comfy_table::Cell::new(text).fg(comfy_table::Color::Green)
}

/// Relies on comfy_table::Cell::new and comfy_table::Cell::fg: a cell showing
/// `text` in red; `fg` sets the foreground color only.
#[verifier::external_body]
fn red_cell(text: &str) -> (c: comfy_table::Cell)
    ensures
        cell_text(c) == text@,
{
    comfy_table::Cell::new(text).fg(comfy_table::Color::Red)
}

/// Relies on comfy_table::Table::add_row: appends exactly the given cells as
/// one further row after all rows added before it, touching neither the
/// header nor the arrangement.
#[verifier::external_body]
fn table_add_row(table: &mut comfy_table::Table, cells: Vec<comfy_table::Cell>)
    ensures
        table_cells(*final(table)) == table_cells(*old(table)).push(
            cells@.map_values(|c: comfy_table::Cell| cell_text(c)),
        ),
        table_header(*final(table)) == table_header(*old(table)),
        plain_arrangement(*final(table)) == plain_arrangement(*old(table)),
{
    table.add_row(cells);
}

/// Relies on the Display implementation of comfy_table::Table.  Under the
/// disabled content arrangement a column is laid out at its full content
/// width, capped only at the largest 16-bit display width, so a text that
/// fits one line (no newline, under the cap) occurs verbatim in the rendered
/// text.  The header's lines are emitted first, then every row's lines in
/// insertion order, so each such header text ends before each cell text
/// starts, and the cell texts of an earlier row end before those of a later
/// row start.  Coloring, applied only when a terminal is detected, wraps
/// cell content without changing it.  Beyond that the text may depend on the
/// terminal, so nothing more is claimed.
#[verifier::external_body]
fn table_render(table: &comfy_table::Table) -> (r: String)
    requires
        plain_arrangement(*table),
    ensures
        forall|i: int|
            0 <= i < table_header(*table).len() && fits_one_line(
                #[trigger] table_header(*table)[i],
            ) ==> occurs_in(table_header(*table)[i], r@),
        forall|i: int, j: int|
            0 <= i < table_cells(*table).len() && 0 <= j < table_cells(*table)[i].len()
                && fits_one_line(#[trigger] table_cells(*table)[i][j]) ==> occurs_in(
                table_cells(*table)[i][j],
                r@,
            ),
        forall|h: int, i: int, j: int|
            0 <= h < table_header(*table).len() && fits_one_line(#[trigger] table_header(*table)[h])
                && 0 <= i < table_cells(*table).len() && 0 <= j < table_cells(*table)[i].len()
                && fits_one_line(#[trigger] table_cells(*table)[i][j]) ==> occurs_before(
                table_header(*table)[h],
                table_cells(*table)[i][j],
                r@,
            ),
        forall|i1: int, j1: int, i2: int, j2: int|
            0 <= i1 < i2 < table_cells(*table).len() && 0 <= j1 < table_cells(*table)[i1].len()
                && 0 <= j2 < table_cells(*table)[i2].len() && fits_one_line(
                #[trigger] table_cells(*table)[i1][j1],
            ) && fits_one_line(#[trigger] table_cells(*table)[i2][j2]) ==> occurs_before(
                table_cells(*table)[i1][j1],
                table_cells(*table)[i2][j2],
                r@,
            ),
{
    format!("{}", table)
}

/// Renders the truth table as text: one header cell per proposition in input
/// order, then one row per assignment in canonical order, each cell showing
/// the canonical symbol of [`crate::truth_value::TruthValue::symbol`] — `V`
/// in green for true, `F` in red for false.  Column order always follows the
/// proposition list.  The contract promises that every proposition name that
/// fits one table line (no newline, short enough not to be wrapped) and the
/// canonical symbol of every cell occur in the result, that such names end
/// before any cell symbol starts, and that the symbols of an earlier row end
/// before those of a later row start — the header stands on top and the rows
/// follow in canonical order.  The visual styling itself carries no contract.
pub fn render(table: &TruthTable) -> (out: String)
    requires
        table.wf(),
    ensures
        forall|i: int|
            0 <= i < table.num_props() && fits_one_line(#[trigger] table.prop_names()[i])
                ==> occurs_in(table.prop_names()[i], out@),
        forall|i: int, r: int|
            0 <= i < table.num_props() && 0 <= r < table.num_rows() ==> occurs_in(
                symbol_text(#[trigger] cell_value(table.num_props(), i as nat, r as nat)),
                out@,
            ),
        forall|h: int, i: int, r: int|
            0 <= h < table.num_props() && fits_one_line(#[trigger] table.prop_names()[h]) && 0 <= i
                < table.num_props() && 0 <= r < table.num_rows() ==> occurs_before(
                table.prop_names()[h],
                symbol_text(#[trigger] cell_value(table.num_props(), i as nat, r as nat)),
                out@,
            ),
        forall|i1: int, r1: int, i2: int, r2: int|
            0 <= i1 < table.num_props() && 0 <= i2 < table.num_props() && 0 <= r1 < r2
                < table.num_rows() ==> occurs_before(
                symbol_text(#[trigger] cell_value(table.num_props(), i1 as nat, r1 as nat)),
                symbol_text(#[trigger] cell_value(table.num_props(), i2 as nat, r2 as nat)),
                out@,
            ),
{
    let mut out_table = table_new();
    table_apply_style(&mut out_table);
    table_set_header(&mut out_table, &table.propositions);
    let n = table.column_count();
    let rows = table.row_count();
    let mut r: usize = 0;
    while r < rows
        invariant
            table.wf(),
            n == table.num_props(),
            rows == table.num_rows(),
            r <= rows,
            table_header(out_table) == table.prop_names(),
            plain_arrangement(out_table),
            table_cells(out_table).len() == r,
            forall|rr: int| 0 <= rr < r ==> (#[trigger] table_cells(out_table)[rr]).len() == n,
            forall|rr: int, i: int|
                0 <= rr < r && 0 <= i < n ==> (#[trigger] table_cells(out_table)[rr][i])
                    == symbol_text(cell_value(n as nat, i as nat, rr as nat)),
        decreases rows - r,
    {
        let mut cells: Vec<comfy_table::Cell> = Vec::new();
        let mut i: usize = 0;
        while i < n
            invariant
                table.wf(),
                n == table.num_props(),
                rows == table.num_rows(),
                r < rows,
                i <= n,
                cells@.len() == i,
                forall|ii: int|
                    0 <= ii < i ==> cell_text(#[trigger] cells@[ii]) == symbol_text(
                        cell_value(n as nat, ii as nat, r as nat),
                    ),
            decreases n - i,
        {
            let v = table.value_at(i, r);
            let symbol = v.symbol();
            let cell = if v.0 {
                green_cell(symbol)
            } else {
                red_cell(symbol)
            };
            cells.push(cell);
            i = i + 1;
        }
        proof {
            assert(cells@.map_values(|c: comfy_table::Cell| cell_text(c)) =~= Seq::new(
                n as nat,
                |ii: int| symbol_text(cell_value(n as nat, ii as nat, r as nat)),
            ));
        }
        table_add_row(&mut out_table, cells);
        r = r + 1;
    }
    let rendered = table_render(&out_table);
    proof {
        reveal_strlit("V");
        reveal_strlit("F");
        assert(fits_one_line(symbol_text(true)));
        assert(fits_one_line(symbol_text(false)));
        let ghost np = table.num_props();
        assert forall|i: int, rr: int|
            0 <= i < np && 0 <= rr < table.num_rows() implies occurs_in(
            symbol_text(#[trigger] cell_value(np, i as nat, rr as nat)),
            rendered@,
        ) by {
            assert(table_cells(out_table)[rr][i] == symbol_text(cell_value(np, i as nat, rr as nat)));
            assert(fits_one_line(table_cells(out_table)[rr][i]));
        }
        assert forall|h: int, i: int, rr: int|
            0 <= h < np && fits_one_line(#[trigger] table.prop_names()[h]) && 0 <= i < np && 0 <= rr
                < table.num_rows() implies occurs_before(
            table.prop_names()[h],
            symbol_text(#[trigger] cell_value(np, i as nat, rr as nat)),
            rendered@,
        ) by {
            assert(table_header(out_table)[h] == table.prop_names()[h]);
            assert(table_cells(out_table)[rr][i] == symbol_text(cell_value(np, i as nat, rr as nat)));
            assert(fits_one_line(table_cells(out_table)[rr][i]));
        }
        assert forall|i1: int, r1: int, i2: int, r2: int|
            0 <= i1 < np && 0 <= i2 < np && 0 <= r1 < r2 < table.num_rows() implies occurs_before(
            symbol_text(#[trigger] cell_value(np, i1 as nat, r1 as nat)),
            symbol_text(#[trigger] cell_value(np, i2 as nat, r2 as nat)),
            rendered@,
        ) by {
            assert(table_cells(out_table)[r1][i1] == symbol_text(
                cell_value(np, i1 as nat, r1 as nat),
            ));
            assert(table_cells(out_table)[r2][i2] == symbol_text(
                cell_value(np, i2 as nat, r2 as nat),
            ));
            assert(fits_one_line(table_cells(out_table)[r1][i1]));
            assert(fits_one_line(table_cells(out_table)[r2][i2]));
        }
    }
    rendered
}

} // verus!
