use delta_kernel::batch::{Batch, Cell};
use delta_kernel::error::Error;
use delta_kernel::predicate::{
    compare, evaluate_expression, get_number, row_passes, Comparison, Predicate,
};
use delta_kernel::projection::{
    column_names, copy_cell, find_column, get_requested_indices, plan_projection, prune_row,
    reorder_row, Projection,
};
use delta_kernel::reader::{
    arrange, arrange_read, read_batch, read_file, read_files, PhysicalFile,
};
use delta_kernel::schema::{DataType, Field, StructType};

fn names(items: &[&str]) -> Vec<String> {
    items.iter().map(|s| s.to_string()).collect()
}

fn logical(items: &[&str]) -> StructType {
    StructType::new(items.iter().map(|n| Field::new(n, DataType::Long, false)).collect())
}

fn nullable(items: &[&str]) -> StructType {
    StructType::new(items.iter().map(|n| Field::new(n, DataType::Long, true)).collect())
}

fn longs(items: &[i64]) -> Vec<Cell> {
    items.iter().map(|n| Cell::Long(*n)).collect()
}

fn batch(rows: &[&[i64]]) -> Batch {
    Batch::new(rows.iter().map(|r| longs(r)).collect())
}

fn file(columns: &[&str], batches: Vec<Batch>) -> PhysicalFile {
    PhysicalFile { columns: names(columns), batches }
}

fn gt(column: &str, value: i64) -> Predicate {
    Predicate::Compare { column: column.to_string(), op: Comparison::Greater, value }
}

fn lt(column: &str, value: i64) -> Predicate {
    Predicate::Compare { column: column.to_string(), op: Comparison::Less, value }
}

fn arrow(columns: &[&str]) -> arrow_schema::Schema {
    let fields: Vec<arrow_schema::Field> = columns
        .iter()
        .map(|n| arrow_schema::Field::new(*n, arrow_schema::DataType::Int64, true))
        .collect();
    arrow_schema::Schema::new(fields)
}

#[test]
fn columns_come_back_in_logical_order() {
    let physical = file(&["b", "a", "c"], vec![batch(&[&[20, 10, 30], &[21, 11, 31]])]);
    let read = read_file(&physical, &logical(&["a", "b", "c"]), &None);
    assert_eq!(read, Ok(batch(&[&[10, 20, 30], &[11, 21, 31]])));
}

#[test]
fn a_logical_schema_in_physical_order_reads_rows_unchanged() {
    let physical = file(&["a", "b", "c"], vec![batch(&[&[1, 2, 3]])]);
    assert_eq!(read_file(&physical, &logical(&["a", "b", "c"]), &None), Ok(batch(&[&[1, 2, 3]])));
}

#[test]
fn the_predicate_keeps_exactly_the_rows_that_satisfy_it() {
    let physical = file(&["x"], vec![batch(&[&[1], &[2], &[3]])]);
    let read = read_file(&physical, &logical(&["x"]), &Some(gt("x", 1)));
    assert_eq!(read, Ok(batch(&[&[2], &[3]])));
}

#[test]
fn a_predicate_that_nothing_satisfies_gives_an_empty_batch() {
    let physical = file(&["x"], vec![batch(&[&[1], &[2], &[3]])]);
    assert_eq!(read_file(&physical, &logical(&["x"]), &Some(gt("x", 3))), Ok(batch(&[])));
}

#[test]
fn a_predicate_may_speak_of_a_column_that_is_not_read() {
    let physical = file(&["x", "y"], vec![batch(&[&[1, 10], &[2, 20], &[3, 30]])]);
    let read = read_file(&physical, &logical(&["y"]), &Some(lt("x", 3)));
    assert_eq!(read, Ok(batch(&[&[10], &[20]])));
}

#[test]
fn zero_files_give_zero_outcomes() {
    assert_eq!(read_files(&vec![], &logical(&["x"]), &None), vec![]);
    assert_eq!(read_files(&vec![], &logical(&["x"]), &Some(gt("x", 0))), vec![]);
}

#[test]
fn every_file_has_its_own_outcome() {
    let files = vec![
        file(&["x", "y"], vec![batch(&[&[1, 2]])]),
        file(&["y"], vec![batch(&[&[5]])]),
        file(&["y", "x"], vec![]),
        file(&["y", "x"], vec![batch(&[&[7, 8]]), batch(&[&[9, 10]])]),
    ];
    assert_eq!(
        read_files(&files, &logical(&["x"]), &None),
        vec![
            Ok(batch(&[&[1]])),
            Err(Error::SchemaMismatch),
            Err(Error::EmptyData),
            Ok(batch(&[&[8], &[10]])),
        ]
    );
}

#[test]
fn a_file_without_batches_holds_no_data() {
    let physical = file(&["x"], vec![]);
    assert_eq!(read_file(&physical, &logical(&["x"]), &None), Err(Error::EmptyData));
}

#[test]
fn a_file_with_an_empty_batch_is_read_as_empty() {
    let physical = file(&["x"], vec![batch(&[])]);
    assert_eq!(read_file(&physical, &logical(&["x"]), &None), Ok(batch(&[])));
}

#[test]
fn the_rows_of_all_batches_are_read_in_order() {
    let physical =
        file(&["x", "y"], vec![batch(&[&[1, 2], &[3, 4]]), batch(&[]), batch(&[&[5, 6]])]);
    let read = read_file(&physical, &logical(&["y", "x"]), &Some(gt("y", 2)));
    assert_eq!(read, Ok(batch(&[&[4, 3], &[6, 5]])));
}

#[test]
fn a_missing_mandatory_column_is_a_schema_mismatch() {
    let physical = file(&["a", "b"], vec![batch(&[&[1, 2]])]);
    assert_eq!(read_file(&physical, &logical(&["a", "z"]), &None), Err(Error::SchemaMismatch));
    // The mismatch is found before the file is found empty.
    let empty = file(&["a", "b"], vec![]);
    assert_eq!(read_file(&empty, &logical(&["z"]), &None), Err(Error::SchemaMismatch));
}

#[test]
fn a_missing_optional_column_reads_as_nulls() {
    let physical = file(&["a", "b"], vec![batch(&[&[1, 2], &[3, 4]])]);
    let read = read_file(&physical, &nullable(&["z", "b"]), &None).unwrap();
    assert_eq!(
        read,
        Batch::new(vec![vec![Cell::Null, Cell::Long(2)], vec![Cell::Null, Cell::Long(4)]])
    );
}

#[test]
fn a_predicate_on_a_missing_column_fails_the_read() {
    let physical = file(&["x"], vec![batch(&[&[1]])]);
    assert_eq!(
        read_file(&physical, &logical(&["x"]), &Some(gt("nope", 1))),
        Err(Error::SchemaMismatch)
    );
}

#[test]
fn a_predicate_on_a_column_that_is_not_numeric_fails_the_read() {
    let physical = PhysicalFile {
        columns: names(&["x", "s"]),
        batches: vec![Batch::new(vec![vec![Cell::Long(1), Cell::Str("one".to_string())]])],
    };
    assert_eq!(
        read_file(&physical, &logical(&["x"]), &Some(gt("s", 1))),
        Err(Error::SchemaMismatch)
    );
    assert_eq!(read_file(&physical, &logical(&["x"]), &Some(gt("x", 0))), Ok(batch(&[&[1]])));
}

#[test]
fn a_predicate_on_a_file_without_rows_is_never_evaluated() {
    let physical = file(&["x"], vec![batch(&[])]);
    assert_eq!(read_file(&physical, &logical(&["x"]), &Some(gt("nope", 1))), Ok(batch(&[])));
}

#[test]
fn a_passing_row_that_lacks_a_needed_column_fails_the_read() {
    let physical = file(&["x", "y"], vec![Batch::new(vec![longs(&[1, 2]), longs(&[3])])]);
    assert_eq!(read_file(&physical, &logical(&["y"]), &None), Err(Error::SchemaMismatch));
    // A row that the predicate drops is not looked at further.
    assert_eq!(read_file(&physical, &logical(&["y"]), &Some(lt("x", 2))), Ok(batch(&[&[2]])));
}

#[test]
fn one_batch_can_be_read_on_its_own() {
    let read = read_batch(
        &batch(&[&[1, 10], &[2, 20]]),
        &names(&["k", "v"]),
        &logical(&["v", "k"]),
        &Some(gt("k", 1)),
    );
    assert_eq!(read, Ok(batch(&[&[20, 2]])));
    assert_eq!(
        read_batch(&batch(&[]), &names(&["k"]), &logical(&["v"]), &None),
        Err(Error::SchemaMismatch)
    );
}

#[test]
fn cells_of_every_type_survive_the_read() {
    let row = vec![
        Cell::Str("s".to_string()),
        Cell::Int(1),
        Cell::Long(2),
        Cell::Bool(true),
        Cell::List(vec!["a".to_string(), "b".to_string()]),
        Cell::Dict(vec![("k".to_string(), "v".to_string())]),
        Cell::Null,
    ];
    let expected: Vec<Cell> = row.iter().rev().map(copy_cell).collect();
    let physical = PhysicalFile {
        columns: names(&["a", "b", "c", "d", "e", "f", "g"]),
        batches: vec![Batch::new(vec![row])],
    };
    let read = read_file(&physical, &nullable(&["g", "f", "e", "d", "c", "b", "a"]), &None);
    assert_eq!(read, Ok(Batch::new(vec![expected])));
}

#[test]
fn the_plan_reads_the_needed_columns_in_physical_order() {
    let plan = plan_projection(&logical(&["c", "a"]), &names(&["a", "b", "c", "d"])).unwrap();
    assert_eq!(plan, Projection { mask: vec![0, 2], sources: vec![Some(1), Some(0)] });
}

#[test]
fn the_plan_points_at_nothing_for_an_omitted_optional_column() {
    let plan = plan_projection(&nullable(&["z", "b", "y"]), &names(&["a", "b"])).unwrap();
    assert_eq!(plan, Projection { mask: vec![1], sources: vec![None, Some(0), None] });
}

#[test]
fn the_plan_uses_the_first_of_several_namesakes() {
    let plan = plan_projection(&logical(&["a", "a"]), &names(&["b", "a", "a"])).unwrap();
    assert_eq!(plan, Projection { mask: vec![1], sources: vec![Some(0), Some(0)] });
}

#[test]
fn the_plan_for_no_logical_columns_reads_nothing() {
    let plan = plan_projection(&logical(&[]), &names(&["a", "b"])).unwrap();
    assert_eq!(plan, Projection { mask: vec![], sources: vec![] });
    assert_eq!(
        read_file(&file(&["a"], vec![batch(&[&[1], &[2]])]), &logical(&[]), &None),
        Ok(batch(&[&[], &[]]))
    );
}

#[test]
fn planning_fails_exactly_when_a_mandatory_column_is_missing() {
    assert_eq!(
        plan_projection(&logical(&["a", "z"]), &names(&["a"])),
        Err(Error::SchemaMismatch)
    );
    assert!(plan_projection(&nullable(&["a", "z"]), &names(&["a"])).is_ok());
    assert_eq!(plan_projection(&logical(&["a"]), &names(&[])), Err(Error::SchemaMismatch));
}

#[test]
fn the_mask_is_handed_out_only_for_a_strict_subset() {
    let plan = plan_projection(&logical(&["c", "a"]), &names(&["a", "b", "c"])).unwrap();
    assert_eq!(plan.generate_mask(3), Some(vec![0, 2]));
    let plan = plan_projection(&logical(&["c", "a", "b"]), &names(&["a", "b", "c"])).unwrap();
    assert_eq!(plan.generate_mask(3), None);
    let plan = plan_projection(&logical(&[]), &names(&[])).unwrap();
    assert_eq!(plan.generate_mask(0), None);
}

#[test]
fn the_plan_is_made_from_a_physical_schema() {
    let plan =
        get_requested_indices(&logical(&["a", "b", "c"]), &arrow(&["b", "a", "c"])).unwrap();
    assert_eq!(plan, Projection { mask: vec![0, 1, 2], sources: vec![Some(1), Some(0), Some(2)] });
    assert_eq!(
        get_requested_indices(&logical(&["a", "q"]), &arrow(&["b", "a", "c"])),
        Err(Error::SchemaMismatch)
    );
}

#[test]
fn the_column_names_of_a_physical_schema_are_read_in_order() {
    assert_eq!(column_names(&arrow(&["b", "a", "c"])), names(&["b", "a", "c"]));
    assert_eq!(column_names(&arrow(&[])), names(&[]));
    assert_eq!(column_names(&arrow(&["only"])), names(&["only"]));
}

#[test]
fn a_column_is_found_at_its_first_position() {
    let columns = names(&["a", "b", "a"]);
    assert_eq!(find_column(&columns, &"a".to_string()), Some(0));
    assert_eq!(find_column(&columns, &"b".to_string()), Some(1));
    assert_eq!(find_column(&columns, &"c".to_string()), None);
    assert_eq!(find_column(&names(&[]), &"a".to_string()), None);
}

#[test]
fn pruning_keeps_the_masked_cells_in_mask_order() {
    assert_eq!(prune_row(&longs(&[10, 11, 12, 13]), &vec![1, 3]), Ok(longs(&[11, 13])));
    assert_eq!(prune_row(&longs(&[10, 11]), &vec![]), Ok(vec![]));
    assert_eq!(prune_row(&longs(&[10, 11]), &vec![0, 2]), Err(Error::SchemaMismatch));
}

#[test]
fn reordering_follows_the_sources() {
    assert_eq!(
        reorder_row(&longs(&[10, 11]), &vec![Some(1), None, Some(0), Some(1)]),
        Ok(vec![Cell::Long(11), Cell::Null, Cell::Long(10), Cell::Long(11)])
    );
    assert_eq!(reorder_row(&longs(&[10]), &vec![Some(1)]), Err(Error::SchemaMismatch));
}

#[test]
fn comparisons_follow_their_relation() {
    assert!(compare(Comparison::Less, 1, 2) && !compare(Comparison::Less, 2, 2));
    assert!(compare(Comparison::LessOrEqual, 2, 2) && !compare(Comparison::LessOrEqual, 3, 2));
    assert!(compare(Comparison::Greater, 3, 2) && !compare(Comparison::Greater, 2, 2));
    assert!(compare(Comparison::GreaterOrEqual, 2, 2));
    assert!(!compare(Comparison::GreaterOrEqual, 1, 2));
    assert!(compare(Comparison::Equal, -1, -1) && !compare(Comparison::Equal, -1, 1));
    assert!(compare(Comparison::NotEqual, -1, 1) && !compare(Comparison::NotEqual, 1, 1));
    assert!(compare(Comparison::Less, i64::MIN, i64::MAX));
}

#[test]
fn numbers_are_read_from_both_integer_widths() {
    let row = vec![Cell::Int(-5), Cell::Long(6), Cell::Null, Cell::Bool(true)];
    assert_eq!(get_number(&row, 0), Ok(Some(-5)));
    assert_eq!(get_number(&row, 1), Ok(Some(6)));
    assert_eq!(get_number(&row, 2), Ok(None));
    assert_eq!(get_number(&row, 3), Err(Error::SchemaMismatch));
    assert_eq!(get_number(&row, 4), Err(Error::SchemaMismatch));
}

#[test]
fn a_comparison_with_a_null_is_unknown_and_drops_the_row() {
    let columns = names(&["x"]);
    let row = vec![Cell::Null];
    assert_eq!(evaluate_expression(&gt("x", 1), &columns, &row), Ok(None));
    assert_eq!(row_passes(&Some(gt("x", 1)), &columns, &row), Ok(false));
    let not = Predicate::Not(Box::new(gt("x", 1)));
    assert_eq!(evaluate_expression(&not, &columns, &row), Ok(None));
    assert_eq!(row_passes(&Some(not), &columns, &row), Ok(false));
    assert_eq!(row_passes(&None, &columns, &row), Ok(true));
}

#[test]
fn combinations_follow_three_valued_logic() {
    let columns = names(&["t", "f", "u"]);
    let row = vec![Cell::Long(1), Cell::Long(0), Cell::Null];
    let t = || Box::new(gt("t", 0));
    let f = || Box::new(gt("f", 0));
    let u = || Box::new(gt("u", 0));
    let eval = |p: Predicate| evaluate_expression(&p, &columns, &row);
    assert_eq!(eval(Predicate::And(t(), t())), Ok(Some(true)));
    assert_eq!(eval(Predicate::And(t(), f())), Ok(Some(false)));
    assert_eq!(eval(Predicate::And(u(), f())), Ok(Some(false)));
    assert_eq!(eval(Predicate::And(f(), u())), Ok(Some(false)));
    assert_eq!(eval(Predicate::And(t(), u())), Ok(None));
    assert_eq!(eval(Predicate::And(u(), u())), Ok(None));
    assert_eq!(eval(Predicate::Or(f(), f())), Ok(Some(false)));
    assert_eq!(eval(Predicate::Or(f(), t())), Ok(Some(true)));
    assert_eq!(eval(Predicate::Or(u(), t())), Ok(Some(true)));
    assert_eq!(eval(Predicate::Or(t(), u())), Ok(Some(true)));
    assert_eq!(eval(Predicate::Or(f(), u())), Ok(None));
    assert_eq!(eval(Predicate::Not(t())), Ok(Some(false)));
    assert_eq!(eval(Predicate::Not(f())), Ok(Some(true)));
    assert_eq!(eval(Predicate::Not(u())), Ok(None));
}

#[test]
fn a_failure_on_either_side_of_a_combination_is_a_failure() {
    let columns = names(&["x"]);
    let row = longs(&[0]);
    let bad = || Box::new(gt("missing", 0));
    let f = || Box::new(gt("x", 0));
    let eval = |p: Predicate| evaluate_expression(&p, &columns, &row);
    assert_eq!(eval(Predicate::And(f(), bad())), Err(Error::SchemaMismatch));
    assert_eq!(eval(Predicate::And(bad(), f())), Err(Error::SchemaMismatch));
    assert_eq!(eval(Predicate::Or(Box::new(lt("x", 1)), bad())), Err(Error::SchemaMismatch));
    assert_eq!(eval(Predicate::Not(bad())), Err(Error::SchemaMismatch));
}

#[test]
fn a_predicate_uses_the_first_of_several_namesakes() {
    let columns = names(&["x", "x"]);
    let row = longs(&[5, -5]);
    assert_eq!(evaluate_expression(&gt("x", 0), &columns, &row), Ok(Some(true)));
}

#[test]
fn arranging_what_was_read_by_the_mask_gives_logical_order() {
    // The file holds [b, x, a]; the plan reads b and a and hands out [a, b].
    let plan = plan_projection(&logical(&["a", "b"]), &names(&["b", "x", "a"])).unwrap();
    assert_eq!(plan.generate_mask(3), Some(vec![0, 2]));
    let read = vec![batch(&[&[20, 10], &[21, 11]]), batch(&[&[22, 12]])];
    assert_eq!(arrange(&read, &plan), Ok(batch(&[&[10, 20], &[11, 21], &[12, 22]])));
}

#[test]
fn arranging_agrees_with_reading_the_whole_file() {
    let physical = file(&["b", "x", "a"], vec![batch(&[&[20, 0, 10], &[21, 5, 11], &[22, 9, 12]])]);
    let schema = logical(&["a", "b"]);
    let whole = read_file(&physical, &schema, &Some(gt("x", 1))).unwrap();
    // What a reader hands out when the predicate and the mask are pushed
    // down to it: the passing rows, restricted to the masked columns.
    let plan = plan_projection(&schema, &physical.columns).unwrap();
    let pushed_down = vec![batch(&[&[21, 11], &[22, 12]])];
    assert_eq!(arrange(&pushed_down, &plan), Ok(whole));
}

#[test]
fn arranging_no_batches_finds_no_data() {
    let plan = plan_projection(&logical(&["a"]), &names(&["a"])).unwrap();
    assert_eq!(arrange(&vec![], &plan), Err(Error::EmptyData));
    assert_eq!(arrange(&vec![batch(&[])], &plan), Ok(batch(&[])));
}

#[test]
fn arranging_a_row_that_is_too_narrow_fails() {
    let plan = plan_projection(&logical(&["a", "b"]), &names(&["a", "b"])).unwrap();
    let read = vec![batch(&[&[1, 2]]), batch(&[&[3]])];
    assert_eq!(arrange(&read, &plan), Err(Error::SchemaMismatch));
}

#[test]
fn arranging_fills_omitted_columns_with_nulls() {
    let plan = plan_projection(&nullable(&["z", "a"]), &names(&["a"])).unwrap();
    assert_eq!(
        arrange(&vec![batch(&[&[1]])], &plan),
        Ok(Batch::new(vec![vec![Cell::Null, Cell::Long(1)]]))
    );
}

#[test]
fn a_file_without_rows_holds_no_data() {
    let plan = plan_projection(&logical(&["a"]), &names(&["a"])).unwrap();
    assert_eq!(arrange_read(&vec![], false, &plan), Err(Error::EmptyData));
}

#[test]
fn a_file_whose_rows_all_fail_the_predicate_is_read_as_no_rows() {
    let plan = plan_projection(&logical(&["a"]), &names(&["a"])).unwrap();
    assert_eq!(arrange_read(&vec![], true, &plan), Ok(batch(&[])));
}

#[test]
fn finishing_a_read_arranges_what_was_handed_out() {
    let plan = plan_projection(&logical(&["a", "b"]), &names(&["b", "a"])).unwrap();
    let read = vec![batch(&[&[2, 1]]), batch(&[&[4, 3]])];
    assert_eq!(arrange_read(&read, true, &plan), Ok(batch(&[&[1, 2], &[3, 4]])));
    assert_eq!(arrange_read(&read, false, &plan), Ok(batch(&[&[1, 2], &[3, 4]])));
}
