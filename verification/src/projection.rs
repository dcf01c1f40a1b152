//! Projection of a physical file's columns onto a logical schema.
//!
//! The logical schema decides which columns a read returns and in which
//! order. A physical file may hold its columns in any order, hold columns
//! that are not asked for, and lack columns that the logical schema lets be
//! null. From the two schemas a plan is made: which physical columns to
//! read, and where each logical column is found among those read.

use crate::batch::{copy_pairs, copy_strings, lemma_cells_view, row_view, Cell, CellView};
use crate::error::Error;
use crate::schema::{field_view, lemma_fields_view, FieldView, StructType};
use vstd::prelude::*;

verus! {

/// Declares `arrow_schema::Schema`, the schema that a physical file carries,
/// as a type whose inside is not looked at: all that is known of a value is
/// what the two functions below say of it.
#[verifier::external_type_specification]
#[verifier::external_body]
pub struct ExArrowSchema(arrow_schema::Schema);

/// The names of a physical schema's top-level columns, in column order.
pub uninterp spec fn schema_names(schema: arrow_schema::Schema) -> Seq<Seq<char>>;

/// Calls `arrow_schema::Schema::fields` and takes the length of the field
/// list: the number of top-level columns.
#[verifier::external_body]
fn schema_width(schema: &arrow_schema::Schema) -> (width: usize)
    ensures
        width == schema_names(*schema).len(),
{
    schema.fields().len()
}

/// Calls `arrow_schema::Schema::field`, which panics beyond the last column,
/// and `arrow_schema::Field::name` on the field it gives: the name of the
/// top-level column at `index`.
#[verifier::external_body]
fn schema_name(schema: &arrow_schema::Schema, index: usize) -> (name: String)
    requires
        index < schema_names(*schema).len(),
    ensures
        name@ == schema_names(*schema)[index as int],
{
    schema.field(index).name().clone()
}

/// The names of the top-level columns of a physical schema, in column order.
pub fn column_names(schema: &arrow_schema::Schema) -> (names: Vec<String>)
    ensures
        names.deep_view() == schema_names(*schema),
{
    let width: usize = schema_width(schema);
    let mut names: Vec<String> = Vec::new();
    let mut i: usize = 0;
    while i < width
        invariant
            width == schema_names(*schema).len(),
            i <= width,
            names.len() == i,
            forall|j: int| 0 <= j < i ==> names[j]@ == schema_names(*schema)[j],
        decreases width - i,
    {
        names.push(schema_name(schema, i));
        i += 1;
    }
    assert(names.deep_view() =~= schema_names(*schema));
    names
}

/// The first position at which `names` holds `name`.
pub open spec fn first_index(names: Seq<Seq<char>>, name: Seq<char>) -> Option<int>
    decreases names.len(),
{
    if names.len() == 0 {
        None
    } else {
        match first_index(names.drop_last(), name) {
            Some(i) => Some(i),
            None => if names.last() == name {
                Some(names.len() - 1)
            } else {
                None
            },
        }
    }
}

/// What the first position is: the name stands there and nowhere in front
/// of it, and where there is no first position the name stands nowhere.
pub proof fn lemma_first_index(names: Seq<Seq<char>>, name: Seq<char>)
    ensures
        match first_index(names, name) {
            Some(i) => {
                &&& 0 <= i < names.len()
                &&& names[i] == name
                &&& forall|j: int| 0 <= j < i ==> names[j] != name
            },
            None => forall|j: int| 0 <= j < names.len() ==> names[j] != name,
        },
    decreases names.len(),
{
    if names.len() > 0 {
        lemma_first_index(names.drop_last(), name);
        assert forall|j: int| 0 <= j < names.len() - 1 implies names.drop_last()[j]
            == names[j] by {}
        match first_index(names.drop_last(), name) {
            Some(i) => {
                assert(names.drop_last()[i] == names[i]);
                assert forall|j: int| 0 <= j < i implies names[j] != name by {
                    assert(names.drop_last()[j] == names[j]);
                }
            },
            None => {
                assert forall|j: int| 0 <= j < names.len() - 1 implies names[j] != name by {
                    assert(names.drop_last()[j] == names[j]);
                }
            },
        }
    }
}

/// Finds the first column called `name`.
pub fn find_column(names: &Vec<String>, name: &String) -> (found: Option<usize>)
    ensures
        match found {
            Some(i) => first_index(names.deep_view(), name@) == Some(i as int),
            None => first_index(names.deep_view(), name@) is None,
        },
{
    let mut i: usize = 0;
    while i < names.len()
        invariant
            i <= names.len(),
            forall|j: int| 0 <= j < i ==> names.deep_view()[j] != name@,
        decreases names.len() - i,
    {
        if names[i] == *name {
            proof {
                assert(names.deep_view()[i as int] == name@);
                lemma_first_index(names.deep_view(), name@);
            }
            return Some(i);
        }
        i += 1;
    }
    proof {
        lemma_first_index(names.deep_view(), name@);
    }
    None
}

/// Whether one of the first `count` logical columns is found at physical
/// column `k`.
pub open spec fn wanted_by(
    logical: Seq<FieldView>,
    physical: Seq<Seq<char>>,
    k: int,
    count: int,
) -> bool {
    exists|i: int|
        0 <= i < count && i < logical.len() && first_index(physical, (#[trigger] logical[i]).name)
            == Some(k)
}

/// Whether a logical column is found at physical column `k`.
pub open spec fn wanted(logical: Seq<FieldView>, physical: Seq<Seq<char>>, k: int) -> bool {
    wanted_by(logical, physical, k, logical.len() as int)
}

/// Whether the file can serve the logical schema: every logical column that
/// must not be null is among the physical columns.
pub open spec fn resolvable(logical: Seq<FieldView>, physical: Seq<Seq<char>>) -> bool {
    forall|i: int|
        0 <= i < logical.len() ==> (#[trigger] logical[i]).nullable || first_index(
            physical,
            logical[i].name,
        ) is Some
}

/// How to read a physical file for a logical schema.
#[derive(Debug, PartialEq, Eq)]
pub struct Projection {
    /// The physical columns to read, in rising order.
    pub mask: Vec<usize>,
    /// For each logical column its position among the columns read, or none
    /// for a column that the file omits.
    pub sources: Vec<Option<usize>>,
}

/// Whether `mask` and `sources` are the plan for reading `physical` as
/// `logical`: the mask rises strictly and holds wanted columns only, and
/// each logical column points at its first physical namesake among the
/// columns read, or at nothing where the file has no such column.
pub open spec fn plans(
    mask: Seq<usize>,
    sources: Seq<Option<usize>>,
    logical: Seq<FieldView>,
    physical: Seq<Seq<char>>,
) -> bool {
    &&& forall|a: int, b: int| 0 <= a < b < mask.len() ==> mask[a] < mask[b]
    &&& forall|a: int|
        0 <= a < mask.len() ==> (#[trigger] mask[a]) < physical.len() && wanted(
            logical,
            physical,
            mask[a] as int,
        )
    &&& sources.len() == logical.len()
    &&& forall|i: int|
        0 <= i < logical.len() ==> match first_index(physical, (#[trigger] logical[i]).name) {
            Some(k) => sources[i] matches Some(j) && j < mask.len() && mask[j as int] == k,
            None => sources[i] is None,
        }
}

/// Plans the read of a file with the columns `physical` for the schema
/// `logical`. Fails with a schema mismatch exactly when a logical column that
/// must not be null is missing from the file.
pub fn plan_projection(logical: &StructType, physical: &Vec<String>) -> (plan: Result<
    Projection,
    Error,
>)
    ensures
        match plan {
            Ok(p) => {
                &&& resolvable(logical@, physical.deep_view())
                &&& plans(p.mask@, p.sources@, logical@, physical.deep_view())
            },
            Err(e) => e == Error::SchemaMismatch && !resolvable(
                logical@,
                physical.deep_view(),
            ),
        },
{
    let ghost fields = logical@;
    let ghost names = physical.deep_view();
    proof {
        lemma_fields_view(logical.fields@);
    }
    let width: usize = physical.len();
    let count: usize = logical.fields.len();
    let mut needed: Vec<bool> = Vec::new();
    let mut k: usize = 0;
    while k < width
        invariant
            k <= width,
            needed@.len() == k,
            forall|j: int| 0 <= j < k ==> !needed@[j],
        decreases width - k,
    {
        needed.push(false);
        k += 1;
    }
    let mut found: Vec<Option<usize>> = Vec::new();
    let mut i: usize = 0;
    while i < count
        invariant
            i <= count,
            count == fields.len(),
            count == logical.fields@.len(),
            fields == logical@,
            forall|j: int| 0 <= j < count ==> fields[j] == field_view(logical.fields@[j]),
            names == physical.deep_view(),
            width == names.len(),
            needed@.len() == width,
            found@.len() == i,
            forall|j: int|
                0 <= j < i ==> match first_index(names, (#[trigger] fields[j]).name) {
                    Some(at) => found@[j] == Some(at as usize) && 0 <= at < width,
                    None => found@[j] is None && fields[j].nullable,
                },
            forall|c: int|
                0 <= c < width ==> (needed@[c] <==> wanted_by(fields, names, c, i as int)),
        decreases count - i,
    {
        let at = find_column(physical, &logical.fields[i].name);
        proof {
            lemma_first_index(names, fields[i as int].name);
        }
        let ghost needed_before = needed@;
        match at {
            Some(c) => {
                needed.set(c, true);
            },
            None => {
                if !logical.fields[i].nullable {
                    return Err(Error::SchemaMismatch);
                }
            },
        }
        found.push(at);
        proof {
            assert forall|c: int| 0 <= c < width implies (needed@[c] <==> wanted_by(
                fields,
                names,
                c,
                i + 1,
            )) by {
                if wanted_by(fields, names, c, i as int) {
                    let j = choose|j: int|
                        0 <= j < i && j < fields.len() && first_index(
                            names,
                            (#[trigger] fields[j]).name,
                        ) == Some(c);
                    assert(0 <= j < i + 1 && first_index(names, fields[j].name) == Some(c));
                }
                if first_index(names, fields[i as int].name) == Some(c) {
                    assert(wanted_by(fields, names, c, i + 1));
                }
                if wanted_by(fields, names, c, i + 1) {
                    let j = choose|j: int|
                        0 <= j < i + 1 && j < fields.len() && first_index(
                            names,
                            (#[trigger] fields[j]).name,
                        ) == Some(c);
                    if j < i {
                        assert(wanted_by(fields, names, c, i as int));
                    }
                }
            }
        }
        i += 1;
    }
    let mut mask: Vec<usize> = Vec::new();
    let mut ranks: Vec<usize> = Vec::new();
    let mut c: usize = 0;
    while c < width
        invariant
            c <= width,
            needed@.len() == width,
            ranks@.len() == c,
            mask@.len() <= c,
            forall|a: int, b: int| 0 <= a < b < mask@.len() ==> mask@[a] < mask@[b],
            forall|a: int|
                0 <= a < mask@.len() ==> (#[trigger] mask@[a]) < c && needed@[mask@[a] as int],
            forall|j: int|
                0 <= j < c && needed@[j] ==> (#[trigger] ranks@[j]) < mask@.len()
                    && mask@[ranks@[j] as int] == j,
        decreases width - c,
    {
        ranks.push(mask.len());
        if needed[c] {
            mask.push(c);
        }
        c += 1;
    }
    let mut sources: Vec<Option<usize>> = Vec::new();
    let mut i: usize = 0;
    while i < count
        invariant
            i <= count,
            count == fields.len(),
            width == names.len(),
            found@.len() == count,
            needed@.len() == width,
            ranks@.len() == width,
            sources@.len() == i,
            forall|j: int|
                0 <= j < count ==> match first_index(names, (#[trigger] fields[j]).name) {
                    Some(at) => found@[j] == Some(at as usize) && 0 <= at < width,
                    None => found@[j] is None && fields[j].nullable,
                },
            forall|c: int| 0 <= c < width ==> (needed@[c] <==> wanted(fields, names, c)),
            forall|j: int|
                0 <= j < width && needed@[j] ==> (#[trigger] ranks@[j]) < mask@.len()
                    && mask@[ranks@[j] as int] == j,
            forall|j: int|
                0 <= j < i ==> match first_index(names, (#[trigger] fields[j]).name) {
                    Some(at) => sources@[j] matches Some(r) && r < mask@.len() && mask@[r as int]
                        == at,
                    None => sources@[j] is None,
                },
        decreases count - i,
    {
        let source = match found[i] {
            Some(at) => {
                assert(first_index(names, fields[i as int].name) == Some(at as int));
                assert(wanted(fields, names, at as int));
                Some(ranks[at])
            },
            None => None,
        };
        sources.push(source);
        i += 1;
    }
    Ok(Projection { mask, sources })
}

/// Plans the read of a file with the given physical schema for the schema
/// `requested`.
pub fn get_requested_indices(
    requested: &StructType,
    physical: &arrow_schema::Schema,
) -> (plan: Result<Projection, Error>)
    ensures
        match plan {
            Ok(p) => {
                &&& resolvable(requested@, schema_names(*physical))
                &&& plans(p.mask@, p.sources@, requested@, schema_names(*physical))
            },
            Err(e) => e == Error::SchemaMismatch && !resolvable(
                requested@,
                schema_names(*physical),
            ),
        },
{
    let names = column_names(physical);
    plan_projection(requested, &names)
}

/// A plan's mask holds every wanted column.
pub proof fn lemma_mask_holds_wanted(
    mask: Seq<usize>,
    sources: Seq<Option<usize>>,
    logical: Seq<FieldView>,
    physical: Seq<Seq<char>>,
    k: int,
)
    requires
        plans(mask, sources, logical, physical),
        wanted(logical, physical, k),
    ensures
        exists|a: int| 0 <= a < mask.len() && mask[a] == k,
{
    let i = choose|i: int|
        0 <= i < logical.len() && first_index(physical, (#[trigger] logical[i]).name) == Some(k);
    let j = sources[i].unwrap();
    assert(mask[j as int] == k);
}

/// Two plans agree on the first `upto` columns of their masks.
proof fn lemma_masks_agree(
    first: Seq<usize>,
    first_sources: Seq<Option<usize>>,
    second: Seq<usize>,
    second_sources: Seq<Option<usize>>,
    logical: Seq<FieldView>,
    physical: Seq<Seq<char>>,
    upto: int,
)
    requires
        plans(first, first_sources, logical, physical),
        plans(second, second_sources, logical, physical),
        0 <= upto <= first.len(),
    ensures
        upto <= second.len(),
        forall|a: int| 0 <= a < upto ==> first[a] == second[a],
    decreases upto,
{
    if upto > 0 {
        lemma_masks_agree(
            first,
            first_sources,
            second,
            second_sources,
            logical,
            physical,
            upto - 1,
        );
        let a = upto - 1;
        lemma_mask_holds_wanted(second, second_sources, logical, physical, first[a] as int);
        let c = choose|c: int| 0 <= c < second.len() && second[c] == first[a] as int;
        if c < a {
            assert(first[c] == second[c]);
            assert(first[c] < first[a]);
        }
        assert(a < second.len());
        lemma_mask_holds_wanted(first, first_sources, logical, physical, second[a] as int);
        let d = choose|d: int| 0 <= d < first.len() && first[d] == second[a] as int;
        if d < a {
            assert(first[d] == second[d]);
            assert(second[d] < second[a]);
        }
        if c > a {
            assert(second[a] < second[c]);
        }
        if d > a {
            assert(first[a] < first[d]);
        }
    }
}

/// There is one plan only: whatever meets the description of a plan for a
/// logical schema and a file is the same mask and the same sources.
pub proof fn lemma_plan_is_unique(
    first: Seq<usize>,
    first_sources: Seq<Option<usize>>,
    second: Seq<usize>,
    second_sources: Seq<Option<usize>>,
    logical: Seq<FieldView>,
    physical: Seq<Seq<char>>,
)
    requires
        plans(first, first_sources, logical, physical),
        plans(second, second_sources, logical, physical),
    ensures
        first == second,
        first_sources == second_sources,
{
    lemma_masks_agree(
        first,
        first_sources,
        second,
        second_sources,
        logical,
        physical,
        first.len() as int,
    );
    lemma_masks_agree(
        second,
        second_sources,
        first,
        first_sources,
        logical,
        physical,
        second.len() as int,
    );
    assert(first =~= second);
    assert forall|i: int| 0 <= i < logical.len() implies first_sources[i] == second_sources[i] by {
        match first_index(physical, (#[trigger] logical[i]).name) {
            Some(k) => {
                let x = first_sources[i].unwrap();
                let y = second_sources[i].unwrap();
                if x < y {
                    assert(first[x as int] < first[y as int]);
                }
                if y < x {
                    assert(first[y as int] < first[x as int]);
                }
            },
            None => {},
        }
    }
    assert(first_sources =~= second_sources);
}

impl Projection {
    /// The columns to restrict the physical read to, where the plan reads a
    /// strict subset of the file's `width` columns; none where it reads them
    /// all and there is nothing to prune.
    pub fn generate_mask(&self, width: usize) -> (mask: Option<Vec<usize>>)
        ensures
            match mask {
                Some(m) => self.mask@.len() < width && m@ == self.mask@,
                None => self.mask@.len() >= width,
            },
    {
        if self.mask.len() < width {
            let mut mask: Vec<usize> = Vec::new();
            let mut i: usize = 0;
            while i < self.mask.len()
                invariant
                    i <= self.mask.len(),
                    mask@ == self.mask@.take(i as int),
                decreases self.mask.len() - i,
            {
                mask.push(self.mask[i]);
                assert(self.mask@.take(i + 1) =~= self.mask@.take(i as int).push(
                    self.mask@[i as int],
                ));
                i += 1;
            }
            assert(self.mask@.take(i as int) =~= self.mask@);
            Some(mask)
        } else {
            None
        }
    }
}

/// A copy of a cell.
pub fn copy_cell(cell: &Cell) -> (copy: Cell)
    ensures
        copy@ == cell@,
    decreases *cell,
{
    match cell {
        Cell::Null => Cell::Null,
        Cell::Str(s) => Cell::Str(s.clone()),
        Cell::Int(n) => Cell::Int(*n),
        Cell::Long(n) => Cell::Long(*n),
        Cell::Bool(b) => Cell::Bool(*b),
        Cell::List(items) => Cell::List(copy_strings(items)),
        Cell::Dict(pairs) => Cell::Dict(copy_pairs(pairs)),
        Cell::Record(cells) => {
            let copy = copy_cells(cells);
            proof {
                lemma_cells_view(cells@);
                lemma_cells_view(copy@);
            }
            Cell::Record(copy)
        },
    }
}

/// A copy of the cells of a row or of a record.
pub fn copy_cells(cells: &Vec<Cell>) -> (copy: Vec<Cell>)
    ensures
        row_view(copy@) == row_view(cells@),
    decreases *cells,
{
    let mut copy: Vec<Cell> = Vec::new();
    let mut i: usize = 0;
    while i < cells.len()
        invariant
            i <= cells.len(),
            copy@.len() == i,
            forall|j: int| 0 <= j < i ==> (#[trigger] copy@[j])@ == cells@[j]@,
        decreases cells.len() - i,
    {
        proof {
            assert(decreases_to!(*cells => cells[i as int]));
        }
        copy.push(copy_cell(&cells[i]));
        i += 1;
    }
    assert(row_view(copy@) =~= row_view(cells@));
    copy
}

/// Whether `row` is wide enough for every column of `mask`.
pub open spec fn covers(row: Seq<CellView>, mask: Seq<usize>) -> bool {
    forall|a: int| 0 <= a < mask.len() ==> (#[trigger] mask[a]) < row.len()
}

/// The cells of `row` at the columns of `mask`, in mask order.
pub open spec fn pruned(row: Seq<CellView>, mask: Seq<usize>) -> Seq<CellView> {
    Seq::new(mask.len(), |a: int| row[mask[a] as int])
}

/// Restricts a physical row to the columns of `mask`. Fails with a schema
/// mismatch exactly when the row lacks one of them.
pub fn prune_row(row: &Vec<Cell>, mask: &Vec<usize>) -> (kept: Result<Vec<Cell>, Error>)
    ensures
        match kept {
            Ok(cells) => covers(row_view(row@), mask@) && row_view(cells@) == pruned(
                row_view(row@),
                mask@,
            ),
            Err(e) => e == Error::SchemaMismatch && !covers(row_view(row@), mask@),
        },
{
    let mut cells: Vec<Cell> = Vec::new();
    let mut a: usize = 0;
    while a < mask.len()
        invariant
            a <= mask.len(),
            cells@.len() == a,
            forall|b: int| 0 <= b < a ==> (#[trigger] mask@[b]) < row@.len(),
            forall|b: int| 0 <= b < a ==> (#[trigger] cells@[b])@ == row@[mask@[b] as int]@,
        decreases mask.len() - a,
    {
        if mask[a] >= row.len() {
            assert(!((#[trigger] mask@[a as int]) < row_view(row@).len()));
            return Err(Error::SchemaMismatch);
        }
        cells.push(copy_cell(&row[mask[a]]));
        a += 1;
    }
    assert(row_view(cells@) =~= pruned(row_view(row@), mask@));
    Ok(cells)
}

/// Whether every source points into a row of `width` cells.
pub open spec fn in_reach(sources: Seq<Option<usize>>, width: int) -> bool {
    forall|i: int|
        0 <= i < sources.len() ==> match #[trigger] sources[i] {
            Some(j) => j < width,
            None => true,
        }
}

/// The cells of `row` in the order of `sources`, with a null wherever a
/// source is none.
pub open spec fn reordered(row: Seq<CellView>, sources: Seq<Option<usize>>) -> Seq<CellView> {
    Seq::new(
        sources.len(),
        |i: int|
            match sources[i] {
                Some(j) => row[j as int],
                None => CellView::Null,
            },
    )
}

/// Arranges the cells that were read in logical order. Fails with a schema
/// mismatch exactly when a source points beyond the row.
pub fn reorder_row(row: &Vec<Cell>, sources: &Vec<Option<usize>>) -> (arranged: Result<
    Vec<Cell>,
    Error,
>)
    ensures
        match arranged {
            Ok(cells) => in_reach(sources@, row@.len() as int) && row_view(cells@) == reordered(
                row_view(row@),
                sources@,
            ),
            Err(e) => e == Error::SchemaMismatch && !in_reach(sources@, row@.len() as int),
        },
{
    let mut cells: Vec<Cell> = Vec::new();
    let mut i: usize = 0;
    while i < sources.len()
        invariant
            i <= sources.len(),
            cells@.len() == i,
            forall|b: int|
                0 <= b < i ==> match #[trigger] sources@[b] {
                    Some(j) => j < row@.len() && cells@[b]@ == row@[j as int]@,
                    None => cells@[b]@ == CellView::Null,
                },
        decreases sources.len() - i,
    {
        match sources[i] {
            Some(j) => {
                if j >= row.len() {
                    assert(sources@[i as int] == Some(j));
                    return Err(Error::SchemaMismatch);
                }
                cells.push(copy_cell(&row[j]));
            },
            None => {
                cells.push(Cell::Null);
            },
        }
        i += 1;
    }
    assert(row_view(cells@) =~= reordered(row_view(row@), sources@));
    Ok(cells)
}

/// The logical row that a physical row stands for: for each logical column
/// the cell of its first physical namesake, and a null where the file has no
/// such column.
pub open spec fn logical_row(
    row: Seq<CellView>,
    logical: Seq<FieldView>,
    physical: Seq<Seq<char>>,
) -> Seq<CellView> {
    Seq::new(
        logical.len(),
        |i: int|
            match first_index(physical, logical[i].name) {
                Some(k) => row[k],
                None => CellView::Null,
            },
    )
}

/// Whether `row` is wide enough for every physical column that a logical
/// column is found at.
pub open spec fn serves(
    row: Seq<CellView>,
    logical: Seq<FieldView>,
    physical: Seq<Seq<char>>,
) -> bool {
    forall|i: int|
        0 <= i < logical.len() ==> match first_index(physical, (#[trigger] logical[i]).name) {
            Some(k) => k < row.len(),
            None => true,
        }
}

/// Pruning a row by a plan's mask and arranging what is left by the plan's
/// sources gives the logical row, whatever the order of the physical columns:
/// the columns come out in the order of the logical schema.
pub proof fn lemma_plan_gives_logical_row(
    row: Seq<CellView>,
    mask: Seq<usize>,
    sources: Seq<Option<usize>>,
    logical: Seq<FieldView>,
    physical: Seq<Seq<char>>,
)
    requires
        plans(mask, sources, logical, physical),
    ensures
        covers(row, mask) == serves(row, logical, physical),
        in_reach(sources, mask.len() as int),
        covers(row, mask) ==> reordered(pruned(row, mask), sources) == logical_row(
            row,
            logical,
            physical,
        ),
{
    if covers(row, mask) {
        assert forall|i: int| 0 <= i < logical.len() implies match first_index(
            physical,
            (#[trigger] logical[i]).name,
        ) {
            Some(k) => k < row.len(),
            None => true,
        } by {
            match first_index(physical, logical[i].name) {
                Some(k) => {
                    let j = sources[i].unwrap();
                    assert(mask[j as int] < row.len());
                },
                None => {},
            }
        }
        assert(reordered(pruned(row, mask), sources) =~= logical_row(row, logical, physical));
    }
    if serves(row, logical, physical) {
        assert forall|a: int| 0 <= a < mask.len() implies (#[trigger] mask[a]) < row.len() by {
            assert(wanted(logical, physical, mask[a] as int));
            let i = choose|i: int|
                0 <= i < logical.len() && first_index(physical, (#[trigger] logical[i]).name)
                    == Some(mask[a] as int);
            assert(mask[a] < row.len());
        }
    }
    assert forall|i: int| 0 <= i < sources.len() implies match #[trigger] sources[i] {
        Some(j) => j < mask.len(),
        None => true,
    } by {
        assert(0 <= i < logical.len());
        match first_index(physical, logical[i].name) {
            Some(k) => {},
            None => {},
        }
    }
}

} // verus!
