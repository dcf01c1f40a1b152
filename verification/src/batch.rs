//! Batches of rows and the typed, optional reads that decoding is built on.
//!
//! A batch is held as plain values, whatever encoding it was read from: a
//! reader asks for the optional value of one type at one column of one row,
//! and nothing else.

use crate::error::Error;
use vstd::prelude::*;

verus! {

/// One value of a row.
#[derive(Debug, PartialEq, Eq)]
pub enum Cell {
    /// No value.
    Null,
    Str(String),
    Int(i32),
    Long(i64),
    Bool(bool),
    List(Vec<String>),
    Dict(Vec<(String, String)>),
    /// A nested record: one cell for each of its fields, in field order.
    Record(Vec<Cell>),
}

/// What a [`Cell`] holds, as mathematics.
pub enum CellView {
    Null,
    Str(Seq<char>),
    Int(i32),
    Long(i64),
    Bool(bool),
    List(Seq<Seq<char>>),
    Dict(Seq<(Seq<char>, Seq<char>)>),
    Record(Seq<CellView>),
}

/// The view of a cell.
pub open spec fn cell_view(cell: Cell) -> CellView
    decreases cell,
{
    match cell {
        Cell::Null => CellView::Null,
        Cell::Str(s) => CellView::Str(s@),
        Cell::Int(n) => CellView::Int(n),
        Cell::Long(n) => CellView::Long(n),
        Cell::Bool(b) => CellView::Bool(b),
        Cell::List(items) => CellView::List(items.deep_view()),
        Cell::Dict(pairs) => CellView::Dict(pairs.deep_view()),
        Cell::Record(cells) => CellView::Record(cells_view(cells@)),
    }
}

/// The views of the cells of a record, in order.
pub open spec fn cells_view(cells: Seq<Cell>) -> Seq<CellView>
    decreases cells,
{
    if cells.len() == 0 {
        Seq::empty()
    } else {
        cells_view(cells.drop_last()).push(cell_view(cells.last()))
    }
}

impl View for Cell {
    type V = CellView;

    open spec fn view(&self) -> CellView {
        cell_view(*self)
    }
}

/// The cells of a row, as mathematics.
pub open spec fn row_view(row: Seq<Cell>) -> Seq<CellView> {
    Seq::new(row.len(), |i: int| row[i]@)
}

/// The cells of a record are viewed as the cells of a row are: one for one.
pub proof fn lemma_cells_view(cells: Seq<Cell>)
    ensures
        cells_view(cells) == row_view(cells),
    decreases cells.len(),
{
    if cells.len() > 0 {
        lemma_cells_view(cells.drop_last());
        assert(row_view(cells.drop_last()) =~= row_view(cells).drop_last());
    }
    assert(cells_view(cells) =~= row_view(cells));
}

/// A batch of rows. Rows may differ in width: a column that a row lacks reads
/// as a schema mismatch.
#[derive(Debug, PartialEq, Eq)]
pub struct Batch {
    pub rows: Vec<Vec<Cell>>,
}

impl View for Batch {
    type V = Seq<Seq<CellView>>;

    open spec fn view(&self) -> Seq<Seq<CellView>> {
        Seq::new(self.rows@.len(), |i: int| row_view(self.rows@[i]@))
    }
}

/// The views of a sequence of batches.
pub open spec fn batches_view(batches: Seq<Batch>) -> Seq<Seq<Seq<CellView>>> {
    Seq::new(batches.len(), |i: int| batches[i]@)
}

/// The cell at column `col` of `row`, if the row is that wide.
pub open spec fn cell_at(row: Seq<CellView>, col: int) -> Option<CellView> {
    if 0 <= col < row.len() {
        Some(row[col])
    } else {
        None
    }
}

/// The optional string at column `col`: absent for a null, a mismatch for a
/// missing column or a value of another type.
pub open spec fn read_str(row: Seq<CellView>, col: int) -> Result<Option<Seq<char>>, Error> {
    match cell_at(row, col) {
        Some(CellView::Str(s)) => Ok(Some(s)),
        Some(CellView::Null) => Ok(None),
        _ => Err(Error::SchemaMismatch),
    }
}

/// The optional 32-bit integer at column `col`.
pub open spec fn read_int(row: Seq<CellView>, col: int) -> Result<Option<i32>, Error> {
    match cell_at(row, col) {
        Some(CellView::Int(n)) => Ok(Some(n)),
        Some(CellView::Null) => Ok(None),
        _ => Err(Error::SchemaMismatch),
    }
}

/// The optional 64-bit integer at column `col`.
pub open spec fn read_long(row: Seq<CellView>, col: int) -> Result<Option<i64>, Error> {
    match cell_at(row, col) {
        Some(CellView::Long(n)) => Ok(Some(n)),
        Some(CellView::Null) => Ok(None),
        _ => Err(Error::SchemaMismatch),
    }
}

/// The optional truth value at column `col`.
pub open spec fn read_bool(row: Seq<CellView>, col: int) -> Result<Option<bool>, Error> {
    match cell_at(row, col) {
        Some(CellView::Bool(b)) => Ok(Some(b)),
        Some(CellView::Null) => Ok(None),
        _ => Err(Error::SchemaMismatch),
    }
}

/// The optional list of strings at column `col`.
pub open spec fn read_list(row: Seq<CellView>, col: int) -> Result<Option<Seq<Seq<char>>>, Error> {
    match cell_at(row, col) {
        Some(CellView::List(items)) => Ok(Some(items)),
        Some(CellView::Null) => Ok(None),
        _ => Err(Error::SchemaMismatch),
    }
}

/// The optional string-to-string map at column `col`, as its entries in order.
pub open spec fn read_map(row: Seq<CellView>, col: int) -> Result<
    Option<Seq<(Seq<char>, Seq<char>)>>,
    Error,
> {
    match cell_at(row, col) {
        Some(CellView::Dict(pairs)) => Ok(Some(pairs)),
        Some(CellView::Null) => Ok(None),
        _ => Err(Error::SchemaMismatch),
    }
}

/// A copy of a list of strings.
pub fn copy_strings(items: &Vec<String>) -> (copy: Vec<String>)
    ensures
        copy.deep_view() == items.deep_view(),
{
    let mut copy: Vec<String> = Vec::new();
    let mut i: usize = 0;
    while i < items.len()
        invariant
            i <= items.len(),
            copy.len() == i,
            forall|j: int| 0 <= j < i ==> copy[j]@ == items[j]@,
        decreases items.len() - i,
    {
        copy.push(items[i].clone());
        i += 1;
    }
    assert(copy.deep_view() =~= items.deep_view());
    copy
}

/// A copy of a list of string pairs.
pub fn copy_pairs(pairs: &Vec<(String, String)>) -> (copy: Vec<(String, String)>)
    ensures
        copy.deep_view() == pairs.deep_view(),
{
    let mut copy: Vec<(String, String)> = Vec::new();
    let mut i: usize = 0;
    while i < pairs.len()
        invariant
            i <= pairs.len(),
            copy.len() == i,
            forall|j: int| 0 <= j < i ==> copy[j].deep_view() == pairs[j].deep_view(),
        decreases pairs.len() - i,
    {
        let key = pairs[i].0.clone();
        let value = pairs[i].1.clone();
        copy.push((key, value));
        i += 1;
    }
    assert(copy.deep_view() =~= pairs.deep_view());
    copy
}

/// The column `k` places behind `offset`, if a row can be that wide.
pub open spec fn column(offset: usize, k: usize) -> int {
    offset + k
}

/// The cell `k` columns behind `offset` in `row`, if the row is that wide.
pub fn cell<'a>(row: &'a Vec<Cell>, offset: usize, k: usize) -> (found: Option<&'a Cell>)
    ensures
        match found {
            Some(c) => cell_at(row_view(row@), column(offset, k)) == Some(c@),
            None => cell_at(row_view(row@), column(offset, k)) is None,
        },
{
    let width: usize = row.len();
    match offset.checked_add(k) {
        Some(col) => {
            if col < width {
                assert(row_view(row@)[col as int] == row@[col as int]@);
                Some(&row[col])
            } else {
                None
            }
        },
        None => None,
    }
}

/// Reads the optional string `k` columns behind `offset`.
pub fn get_str(row: &Vec<Cell>, offset: usize, k: usize) -> (value: Result<Option<String>, Error>)
    ensures
        match value {
            Ok(found) => read_str(row_view(row@), column(offset, k)) == Ok::<_, Error>(
                found.deep_view(),
            ),
            Err(e) => read_str(row_view(row@), column(offset, k)) == Err::<Option<Seq<char>>, _>(e),
        },
{
    match cell(row, offset, k) {
        Some(Cell::Str(s)) => Ok(Some(s.clone())),
        Some(Cell::Null) => Ok(None),
        _ => Err(Error::SchemaMismatch),
    }
}

/// Reads the optional 32-bit integer `k` columns behind `offset`.
pub fn get_int(row: &Vec<Cell>, offset: usize, k: usize) -> (value: Result<Option<i32>, Error>)
    ensures
        value == read_int(row_view(row@), column(offset, k)),
{
    match cell(row, offset, k) {
        Some(Cell::Int(n)) => Ok(Some(*n)),
        Some(Cell::Null) => Ok(None),
        _ => Err(Error::SchemaMismatch),
    }
}

/// Reads the optional 64-bit integer `k` columns behind `offset`.
pub fn get_long(row: &Vec<Cell>, offset: usize, k: usize) -> (value: Result<Option<i64>, Error>)
    ensures
        value == read_long(row_view(row@), column(offset, k)),
{
    match cell(row, offset, k) {
        Some(Cell::Long(n)) => Ok(Some(*n)),
        Some(Cell::Null) => Ok(None),
        _ => Err(Error::SchemaMismatch),
    }
}

/// Reads the optional truth value `k` columns behind `offset`.
pub fn get_bool(row: &Vec<Cell>, offset: usize, k: usize) -> (value: Result<Option<bool>, Error>)
    ensures
        value == read_bool(row_view(row@), column(offset, k)),
{
    match cell(row, offset, k) {
        Some(Cell::Bool(b)) => Ok(Some(*b)),
        Some(Cell::Null) => Ok(None),
        _ => Err(Error::SchemaMismatch),
    }
}

/// Reads the optional list of strings `k` columns behind `offset`.
pub fn get_list(row: &Vec<Cell>, offset: usize, k: usize) -> (value: Result<
    Option<Vec<String>>,
    Error,
>)
    ensures
        match value {
            Ok(found) => read_list(row_view(row@), column(offset, k)) == Ok::<_, Error>(
                found.deep_view(),
            ),
            Err(e) => read_list(row_view(row@), column(offset, k)) == Err::<
                Option<Seq<Seq<char>>>,
                _,
            >(e),
        },
{
    match cell(row, offset, k) {
        Some(Cell::List(items)) => Ok(Some(copy_strings(items))),
        Some(Cell::Null) => Ok(None),
        _ => Err(Error::SchemaMismatch),
    }
}

/// Reads the optional string-to-string map `k` columns behind `offset`.
pub fn get_map(row: &Vec<Cell>, offset: usize, k: usize) -> (value: Result<
    Option<Vec<(String, String)>>,
    Error,
>)
    ensures
        match value {
            Ok(found) => read_map(row_view(row@), column(offset, k)) == Ok::<_, Error>(
                found.deep_view(),
            ),
            Err(e) => read_map(row_view(row@), column(offset, k)) == Err::<
                Option<Seq<(Seq<char>, Seq<char>)>>,
                _,
            >(e),
        },
{
    match cell(row, offset, k) {
        Some(Cell::Dict(pairs)) => Ok(Some(copy_pairs(pairs))),
        Some(Cell::Null) => Ok(None),
        _ => Err(Error::SchemaMismatch),
    }
}

/// What is owed for a mandatory field: the value, or a malformed action where
/// the column holds none.
pub open spec fn required<T>(read: Result<Option<T>, Error>) -> Result<T, Error> {
    match read {
        Ok(Some(value)) => Ok(value),
        Ok(None) => Err(Error::MalformedAction),
        Err(e) => Err(e),
    }
}

/// Insists on a value for a mandatory field.
pub fn require<T>(read: Result<Option<T>, Error>) -> (value: Result<T, Error>)
    ensures
        value == required(read),
{
    match read {
        Ok(Some(value)) => Ok(value),
        Ok(None) => Err(Error::MalformedAction),
        Err(e) => Err(e),
    }
}

impl Batch {
    /// The batch with the given rows.
    pub fn new(rows: Vec<Vec<Cell>>) -> (batch: Batch)
        ensures
            batch.rows == rows,
    {
        Batch { rows }
    }

    /// Number of rows.
    pub fn len(&self) -> (n: usize)
        ensures
            n == self@.len(),
    {
        self.rows.len()
    }
}

} // verus!
