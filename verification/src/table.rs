//! Result rows laid out as a text table.
use vstd::prelude::*;

use tabled::builder::Builder;
use tabled::settings::Style;

use crate::query::SchemaColumn;

verus! {

broadcast use vstd::string::group_string_axioms;

/// A value of a result row, as a table cell shows it.
pub enum TableCell {
    /// A JSON string, shown as its content.
    Text(String),
    /// The JSON `null`.
    Null,
    /// Any other JSON value, shown as its compact JSON text.
    Other(String),
}

/// What a cell shows.
pub open spec fn cell_text(c: TableCell) -> Seq<char> {
    match c {
        TableCell::Text(s) => s@,
        TableCell::Null => seq!['n', 'u', 'l', 'l'],
        TableCell::Other(j) => j@,
    }
}

/// The texts of a row of cells.
pub open spec fn row_texts(row: Seq<TableCell>) -> Seq<Seq<char>> {
    row.map_values(|c: TableCell| cell_text(c))
}

/// The names of the columns of a schema.
pub open spec fn column_names(schema: Seq<SchemaColumn>) -> Seq<Seq<char>> {
    schema.map_values(|c: SchemaColumn| c.name@)
}

/// The records of a table: a header of column names, then one record per row.
pub open spec fn table_records(schema: Seq<SchemaColumn>, rows: Seq<Vec<TableCell>>) -> Seq<
    Seq<Seq<char>>,
> {
    seq![column_names(schema)] + rows.map_values(|r: Vec<TableCell>| row_texts(r@))
}

/// The length of the longest record, or 0 when there is none.
pub open spec fn widest(records: Seq<Seq<Seq<char>>>) -> int
    decreases records.len(),
{
    if records.len() == 0 {
        0
    } else {
        let w = widest(records.drop_last());
        if records.last().len() > w {
            records.last().len() as int
        } else {
            w
        }
    }
}

/// `record` with empty cells added up to `width` cells.
pub open spec fn pad_record(record: Seq<Seq<char>>, width: int) -> Seq<Seq<char>> {
    if record.len() >= width {
        record
    } else {
        record + Seq::new((width - record.len()) as nat, |i: int| Seq::<char>::empty())
    }
}

/// Every record padded with empty cells to `width` cells.
pub open spec fn pad_records(records: Seq<Seq<Seq<char>>>, width: int) -> Seq<Seq<Seq<char>>> {
    records.map_values(|r: Seq<Seq<char>>| pad_record(r, width))
}

/// `records` as a table builder holds them: every record padded with empty
/// cells to the widest one.
pub open spec fn padded(records: Seq<Seq<Seq<char>>>) -> Seq<Seq<Seq<char>>> {
    pad_records(records, widest(records))
}

/// `record` with copies of the cell `fill` added up to `width` cells.
pub open spec fn fill_to(record: Seq<Seq<char>>, width: int, fill: Seq<char>) -> Seq<Seq<char>> {
    if record.len() >= width {
        record
    } else {
        record + Seq::new((width - record.len()) as nat, |i: int| fill)
    }
}

/// Every row with `n` copies of the cell `fill` appended.
pub open spec fn extend_rows(rows: Seq<Seq<Seq<char>>>, n: int, fill: Seq<char>) -> Seq<
    Seq<Seq<char>>,
> {
    rows.map_values(|r: Seq<Seq<char>>| r + Seq::new(n as nat, |i: int| fill))
}

#[verifier::external_type_specification]
#[verifier::external_body]
pub struct ExTableBuilder(Builder);

/// The rows a table builder holds, in order, each as the texts of its cells.
pub uninterp spec fn builder_records(b: Builder) -> Seq<Seq<Seq<char>>>;

/// The number of columns a table builder keeps its rows at.
pub uninterp spec fn builder_columns(b: Builder) -> int;

/// The text of the cells a table builder pads rows with.
pub uninterp spec fn builder_filler(b: Builder) -> Seq<char>;

/// The text of the table that `tabled` lays out from the rows `records` of a
/// builder in its modern style (`Builder::build`, `Table::with(Style::modern())`,
/// then `Display`).
pub uninterp spec fn modern_table_text(records: Seq<Seq<Seq<char>>>) -> Seq<char>;

/// `Builder::default`: a builder with no row, no column, and the empty text
/// as the padding cell.
#[verifier::external_body]
fn new_builder() -> (b: Builder)
    ensures
        builder_records(b) == Seq::<Seq<Seq<char>>>::empty(),
        builder_columns(b) == 0,
        builder_filler(b) == Seq::<char>::empty(),
{
    Builder::default()
}

/// `Builder::push_record`: appends a record, one cell per text. A record
/// with fewer cells than the builder's columns is padded with the padding
/// cell (`create_row`); a record with more cells pads every row held by the
/// difference (`resize_rows`) and becomes the new column count.
#[verifier::external_body]
fn push_record(b: &mut Builder, record: &Vec<String>)
    ensures
        ({
            let x = record@.map_values(|s: String| s@);
            let c = builder_columns(*old(b));
            let f = builder_filler(*old(b));
            let w = if x.len() > c {
                x.len() as int
            } else {
                c
            };
            &&& builder_columns(*final(b)) == w
            &&& builder_filler(*final(b)) == f
            &&& builder_records(*final(b)) == extend_rows(builder_records(*old(b)), w - c, f).push(
                fill_to(x, c, f),
            )
        }),
{
    b.push_record(record.iter());
}

/// `Builder::build`, styled by `Style::modern()` and rendered with `to_string`.
#[verifier::external_body]
fn render_modern(b: Builder) -> (r: String)
    ensures
        r@ == modern_table_text(builder_records(b)),
{
    b.build().with(Style::modern()).to_string()
}

/// Every record is at most as wide as the widest.
proof fn lemma_widest(records: Seq<Seq<Seq<char>>>)
    ensures
        widest(records) >= 0,
        forall|i: int| 0 <= i < records.len() ==> #[trigger] records[i].len() <= widest(records),
    decreases records.len(),
{
    if records.len() > 0 {
        lemma_widest(records.drop_last());
        assert forall|i: int| 0 <= i < records.len() implies #[trigger] records[i].len() <= widest(
            records,
        ) by {
            if i < records.len() - 1 {
                assert(records[i] == records.drop_last()[i]);
            }
        }
    }
}

/// Pushing a record into a builder that holds `records` padded to the widest
/// keeps the builder's rows padded to the widest, the new record included.
proof fn lemma_pad_step(records: Seq<Seq<Seq<char>>>, x: Seq<Seq<char>>)
    ensures
        ({
            let c = widest(records);
            let w = if x.len() > c {
                x.len() as int
            } else {
                c
            };
            &&& w == widest(records.push(x))
            &&& extend_rows(padded(records), w - c, Seq::empty()).push(
                fill_to(x, c, Seq::empty()),
            ) == padded(records.push(x))
        }),
{
    let c = widest(records);
    let w = if x.len() > c {
        x.len() as int
    } else {
        c
    };
    lemma_widest(records);
    assert(records.push(x).drop_last() =~= records);
    let lhs = extend_rows(padded(records), w - c, Seq::empty()).push(fill_to(x, c, Seq::empty()));
    let rhs = padded(records.push(x));
    assert forall|i: int| 0 <= i < rhs.len() implies #[trigger] lhs[i] == rhs[i] by {
        if i < records.len() {
            assert(records.push(x)[i] == records[i]);
            assert(padded(records)[i] == pad_record(records[i], c));
            assert(records[i].len() <= c);
            assert(pad_record(records[i], c) + Seq::new((w - c) as nat, |j: int| Seq::<char>::empty())
                =~= pad_record(records[i], w));
        } else {
            assert(records.push(x)[i] == x);
            assert(fill_to(x, c, Seq::empty()) =~= pad_record(x, w));
        }
    }
    assert(lhs =~= rhs);
}

/// The text of a cell.
fn cell_string(c: &TableCell) -> (r: String)
    ensures
        r@ == cell_text(*c),
{
    match c {
        TableCell::Text(s) => s.clone(),
        TableCell::Null => {
            proof {
                reveal_strlit("null");
            }
            "null".to_string()
        },
        TableCell::Other(j) => j.clone(),
    }
}

/// Lays out result rows as a table in the modern style, with the column
/// names as its header; an empty text when there is no row.
pub fn format_table(schema: &Vec<SchemaColumn>, rows: &Vec<Vec<TableCell>>) -> (r: String)
    ensures
        rows@.len() == 0 ==> r@ == Seq::<char>::empty(),
        rows@.len() > 0 ==> r@ == modern_table_text(padded(table_records(schema@, rows@))),
{
    if rows.len() == 0 {
        return String::new();
    }
    let mut builder = new_builder();
    let mut header: Vec<String> = Vec::new();
    let mut i: usize = 0;
    while i < schema.len()
        invariant
            i <= schema@.len(),
            header@.len() == i,
            forall|j: int| 0 <= j < i ==> #[trigger] header@[j]@ == schema@[j].name@,
        decreases schema@.len() - i,
    {
        header.push(schema[i].name.clone());
        i = i + 1;
    }
    let ghost all = table_records(schema@, rows@);
    proof {
        assert(header@.map_values(|s: String| s@) =~= column_names(schema@));
        lemma_pad_step(Seq::empty(), column_names(schema@));
        assert(Seq::<Seq<Seq<char>>>::empty().push(column_names(schema@)) =~= all.subrange(0, 1));
        assert(padded(Seq::<Seq<Seq<char>>>::empty()) =~= Seq::<Seq<Seq<char>>>::empty());
        assert(extend_rows(Seq::<Seq<Seq<char>>>::empty(), widest(all.subrange(0, 1)), Seq::empty())
            =~= Seq::<Seq<Seq<char>>>::empty());
    }
    push_record(&mut builder, &header);
    let mut k: usize = 0;
    while k < rows.len()
        invariant
            k <= rows@.len(),
            all == table_records(schema@, rows@),
            builder_records(builder) == padded(all.subrange(0, k + 1)),
            builder_columns(builder) == widest(all.subrange(0, k + 1)),
            builder_filler(builder) == Seq::<char>::empty(),
        decreases rows@.len() - k,
    {
        let row = &rows[k];
        let mut texts: Vec<String> = Vec::new();
        let mut c: usize = 0;
        while c < row.len()
            invariant
                c <= row@.len(),
                texts@.len() == c,
                forall|j: int| 0 <= j < c ==> #[trigger] texts@[j]@ == cell_text(row@[j]),
            decreases row@.len() - c,
        {
            texts.push(cell_string(&row[c]));
            c = c + 1;
        }
        proof {
            assert(texts@.map_values(|s: String| s@) =~= row_texts(row@));
            assert(all[k + 1] == row_texts(rows@[k as int]@));
            assert(all.subrange(0, k + 2) =~= all.subrange(0, k + 1).push(all[k + 1]));
            lemma_pad_step(all.subrange(0, k + 1), all[k + 1]);
        }
        push_record(&mut builder, &texts);
        k = k + 1;
    }
    proof {
        assert(all.subrange(0, rows@.len() + 1 as int) =~= all);
    }
    render_modern(builder)
}

} // verus!
