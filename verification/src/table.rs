//! Tables: the cells collected from the events, and their drawing by
//! comfy-table.

use vstd::prelude::*;
use comfy_table::{Cell, CellAlignment, Table};
use crate::events::MdAlignment;
use crate::text::escape_free;

verus! {

#[verifier::external_type_specification]
#[verifier::external_body]
pub struct ExTable(Table);

/// The alignment comfy-table applies to the cells of a column.
#[derive(Clone, Copy, PartialEq, Eq, Structural, Debug)]
pub enum CellAlign {
    Left,
    Center,
    Right,
}

/// The 19 border characters a drawn table uses, in comfy-table's preset
/// order: rounded corners, light lines, no borders between body rows.
pub open spec fn table_style() -> Seq<char> {
    seq!['│', '│', '─', '─', '├', '─', '┼', '┤', '│', ' ', ' ', ' ', ' ', '┬', '┴', '╭', '╮', '╰', '╯']
}

/// Every cell of a row holds no escape character.
pub open spec fn cells_escape_free(cells: Seq<Seq<char>>) -> bool {
    forall|i: int| 0 <= i < cells.len() ==> escape_free(#[trigger] cells[i])
}

/// Every cell of every row holds no escape character.
pub open spec fn rows_escape_free(rows: Seq<Seq<Seq<char>>>) -> bool {
    forall|i: int| 0 <= i < rows.len() ==> cells_escape_free(#[trigger] rows[i])
}

/// The border characters of a comfy-table table: the 19 characters of the
/// last preset loaded (a space where a component is not drawn).
pub uninterp spec fn table_preset(table: Table) -> Seq<char>;

/// The header cells of a comfy-table table, in order; empty when no header
/// was set.
pub uninterp spec fn table_header(table: Table) -> Seq<Seq<char>>;

/// The rows of a comfy-table table, each as its cells, in the order they
/// were added.
pub uninterp spec fn table_rows(table: Table) -> Seq<Seq<Seq<char>>>;

/// The columns of a comfy-table table that have an alignment set, each
/// with its alignment.
pub uninterp spec fn table_alignments(table: Table) -> Map<int, CellAlign>;

/// The text comfy-table's `Display` draws for a table with the given border
/// characters, column alignments (a column without one is left-aligned),
/// header and rows, and otherwise the settings of `Table::new`.
pub uninterp spec fn drawn_table(
    preset: Seq<char>,
    alignments: Map<int, CellAlign>,
    header: Seq<Seq<char>>,
    rows: Seq<Seq<Seq<char>>>,
) -> Seq<char>;

/// The most cells any of `rows` has.
pub open spec fn widest_row(rows: Seq<Seq<Seq<char>>>) -> nat
    decreases rows.len(),
{
    if rows.len() == 0 {
        0
    } else {
        let rest = widest_row(rows.drop_last());
        if rows.last().len() > rest {
            rows.last().len()
        } else {
            rest
        }
    }
}

/// The number of columns comfy-table creates for a header and rows: as
/// many as the widest of them has cells.
pub open spec fn column_count(header: Seq<Seq<char>>, rows: Seq<Seq<Seq<char>>>) -> nat {
    if header.len() > widest_row(rows) {
        header.len()
    } else {
        widest_row(rows)
    }
}

/// comfy-table's `Table::new`: a table without header and rows.
#[verifier::external_body]
fn new_table() -> (res: Table)
    ensures
        table_header(res) == Seq::<Seq<char>>::empty(),
        table_rows(res) == Seq::<Seq<Seq<char>>>::empty(),
        table_alignments(res).dom().is_empty(),
{
    Table::new()
}

/// comfy-table's `Table::load_preset`: each of the table's 19 components
/// takes the character at its position in `preset`, so a preset of at least
/// 19 characters fixes all of them. Header and rows stay.
#[verifier::external_body]
fn load_table_preset(table: &mut Table, preset: &str)
    requires
        preset@.len() >= 19,
    ensures
        table_preset(*final(table)) == preset@.subrange(0, 19),
        table_header(*final(table)) == table_header(*old(table)),
        table_rows(*final(table)) == table_rows(*old(table)),
        table_alignments(*final(table)) == table_alignments(*old(table)),
{
    table.load_preset(preset);
}

/// comfy-table's `Table::column_mut`, and `Column::set_cell_alignment` on
/// the column it finds. comfy-table creates a column for each cell position
/// of the header and of each added row (the header being set at most once,
/// as `set_table_header` asks), so column `index` exists exactly when it is
/// below `column_count`; then it takes the alignment, otherwise the table
/// stays as it was.
#[verifier::external_body]
fn align_table_column(table: &mut Table, index: usize, align: CellAlign)
    ensures
        table_alignments(*final(table)) == (if index < column_count(
            table_header(*old(table)),
            table_rows(*old(table)),
        ) {
            table_alignments(*old(table)).insert(index as int, align)
        } else {
            table_alignments(*old(table))
        }),
        table_preset(*final(table)) == table_preset(*old(table)),
        table_header(*final(table)) == table_header(*old(table)),
        table_rows(*final(table)) == table_rows(*old(table)),
{
    let alignment = match align {
        CellAlign::Left => CellAlignment::Left,
        CellAlign::Center => CellAlignment::Center,
        CellAlign::Right => CellAlignment::Right,
    };
    if let Some(column) = table.column_mut(index) {
        column.set_cell_alignment(alignment);
    }
}

/// comfy-table's `Table::set_header`, each cell made by `Cell::new`, on a
/// table without a header. The rows, border characters and column
/// alignments stay (new columns come without one).
#[verifier::external_body]
fn set_table_header(table: &mut Table, cells: &Vec<String>)
    requires
        cells@.len() > 0,
        table_header(*old(table)) == Seq::<Seq<char>>::empty(),
    ensures
        table_header(*final(table)) == cells.deep_view(),
        table_preset(*final(table)) == table_preset(*old(table)),
        table_rows(*final(table)) == table_rows(*old(table)),
        table_alignments(*final(table)) == table_alignments(*old(table)),
{
    table.set_header(cells.iter().map(Cell::new));
}

/// comfy-table's `Table::add_row`, each cell made by `Cell::new`: the row
/// comes last. The header, border characters and column alignments stay
/// (new columns come without one).
#[verifier::external_body]
fn add_table_row(table: &mut Table, cells: &Vec<String>)
    ensures
        table_rows(*final(table)) == table_rows(*old(table)).push(cells.deep_view()),
        table_preset(*final(table)) == table_preset(*old(table)),
        table_header(*final(table)) == table_header(*old(table)),
        table_alignments(*final(table)) == table_alignments(*old(table)),
{
    table.add_row(cells.iter().map(Cell::new));
}

/// comfy-table's `Display` of a table. The text depends on the border
/// characters, column alignments, header and rows (content arrangement
/// stays disabled, and
/// cells carry no style, so neither the terminal nor its width enters). The
/// drawn text is made of the border characters, spaces, line breaks and the
/// cells' characters, so it holds an escape character only where one of
/// these does.
#[verifier::external_body]
fn draw_table(table: &Table) -> (res: String)
    ensures
        res@ == drawn_table(
            table_preset(*table),
            table_alignments(*table),
            table_header(*table),
            table_rows(*table),
        ),
        escape_free(table_preset(*table)) && cells_escape_free(table_header(*table))
            && rows_escape_free(table_rows(*table)) ==> escape_free(res@),
{
    table.to_string()
}

/// A table as the renderer collects it from the events.
pub struct TableState {
    pub alignments: Vec<MdAlignment>,
    pub header: Vec<String>,
    pub rows: Vec<Vec<String>>,
    pub current_row: Vec<String>,
    pub in_header: bool,
}

/// A table under collection as the contracts see it.
#[verifier::ext_equal]
pub struct TableModel {
    pub alignments: Seq<MdAlignment>,
    pub header: Seq<Seq<char>>,
    pub rows: Seq<Seq<Seq<char>>>,
    pub current_row: Seq<Seq<char>>,
    pub in_header: bool,
}

impl View for TableState {
    type V = TableModel;

    open spec fn view(&self) -> TableModel {
        TableModel {
            alignments: self.alignments@,
            header: self.header.deep_view(),
            rows: self.rows.deep_view(),
            current_row: self.current_row.deep_view(),
            in_header: self.in_header,
        }
    }
}

impl TableModel {
    /// The text of the finished table: drawn with `table_style`, each
    /// column aligned as its Markdown delimiter row asks, with its header
    /// row (if it has one) and its body rows.
    pub open spec fn text(self) -> Seq<char> {
        drawn_table(
            table_style(),
            column_alignments(self.alignments, column_count(self.header, self.rows)),
            self.header,
            self.rows,
        )
    }

    /// No collected cell holds an escape character.
    pub open spec fn escape_free(self) -> bool {
        &&& cells_escape_free(self.header)
        &&& rows_escape_free(self.rows)
        &&& cells_escape_free(self.current_row)
    }
}

/// The alignment comfy-table gets for a column: columns without one are
/// left-aligned.
pub open spec fn cell_align(a: MdAlignment) -> CellAlign {
    match a {
        MdAlignment::Unset | MdAlignment::Left => CellAlign::Left,
        MdAlignment::Center => CellAlign::Center,
        MdAlignment::Right => CellAlign::Right,
    }
}

/// The alignments comfy-table holds for a table of `columns` columns: the
/// alignment of each column that both exists and has one in `alignments`.
pub open spec fn column_alignments(alignments: Seq<MdAlignment>, columns: nat) -> Map<
    int,
    CellAlign,
> {
    Map::new(|i: int| 0 <= i < alignments.len() && i < columns, |i: int| cell_align(alignments[i]))
}

fn to_cell_align(a: MdAlignment) -> (res: CellAlign)
    ensures
        res == cell_align(a),
{
    match a {
        MdAlignment::Unset | MdAlignment::Left => CellAlign::Left,
        MdAlignment::Center => CellAlign::Center,
        MdAlignment::Right => CellAlign::Right,
    }
}

/// Draws a collected table with comfy-table: the `table_style` borders, the
/// column alignments, the header row when there is one, then the body rows.
pub fn render_table(state: TableState) -> (res: String)
    ensures
        res@ == state@.text(),
        cells_escape_free(state@.header) && rows_escape_free(state@.rows) ==> escape_free(res@),
{
    let mut table = new_table();
    let style = "││──├─┼┤│    ┬┴╭╮╰╯";
    proof {
        reveal_strlit("││──├─┼┤│    ┬┴╭╮╰╯");
        assert(style@ =~= table_style());
    }
    load_table_preset(&mut table, style);
    assert(style@.subrange(0, 19) =~= table_style());
    if state.header.len() > 0 {
        set_table_header(&mut table, &state.header);
    }
    assert(table_header(table) =~= state.header.deep_view());
    let mut j: usize = 0;
    while j < state.rows.len()
        invariant
            j <= state.rows.len(),
            table_preset(table) == table_style(),
            table_header(table) == state.header.deep_view(),
            table_rows(table) =~= state.rows.deep_view().subrange(0, j as int),
            table_alignments(table) == Map::<int, CellAlign>::empty(),
        decreases state.rows.len() - j,
    {
        add_table_row(&mut table, &state.rows[j]);
        assert(state.rows.deep_view().subrange(0, j + 1) =~= state.rows.deep_view().subrange(
            0,
            j as int,
        ).push(state.rows[j as int].deep_view()));
        j = j + 1;
    }
    assert(state.rows.deep_view().subrange(0, j as int) =~= state.rows.deep_view());
    let ghost columns = column_count(state@.header, state@.rows);
    let mut i: usize = 0;
    assert(Map::<int, CellAlign>::empty() =~= column_alignments(state@.alignments.take(0), columns));
    while i < state.alignments.len()
        invariant
            i <= state.alignments.len(),
            table_preset(table) == table_style(),
            table_header(table) == state@.header,
            table_rows(table) == state@.rows,
            columns == column_count(state@.header, state@.rows),
            table_alignments(table) == column_alignments(state@.alignments.take(i as int), columns),
        decreases state.alignments.len() - i,
    {
        align_table_column(&mut table, i, to_cell_align(state.alignments[i]));
        assert(column_alignments(state@.alignments.take(i + 1), columns) =~= if i < columns {
            column_alignments(state@.alignments.take(i as int), columns).insert(
                i as int,
                cell_align(state@.alignments[i as int]),
            )
        } else {
            column_alignments(state@.alignments.take(i as int), columns)
        });
        i = i + 1;
    }
    assert(state@.alignments.take(i as int) =~= state@.alignments);
    assert(escape_free(table_style())) by {
        assert forall|k: int| 0 <= k < table_style().len() implies table_style()[k]
            != crate::text::escape_char() by {}
    }
    draw_table(&table)
}

} // verus!
