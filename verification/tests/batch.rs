use delta_kernel::batch::{
    cell, copy_pairs, copy_strings, get_bool, get_int, get_list, get_long, get_map, get_str,
    require, Batch, Cell,
};
use delta_kernel::error::Error;

fn row() -> Vec<Cell> {
    vec![
        Cell::Null,
        Cell::Str("text".to_string()),
        Cell::Int(-3),
        Cell::Long(1 << 40),
        Cell::Bool(true),
        Cell::List(vec!["a".to_string(), "b".to_string()]),
        Cell::Dict(vec![("k".to_string(), "v".to_string())]),
    ]
}

#[test]
fn a_value_of_the_asked_type_is_read() {
    let r = row();
    assert_eq!(get_str(&r, 0, 1), Ok(Some("text".to_string())));
    assert_eq!(get_int(&r, 1, 1), Ok(Some(-3)));
    assert_eq!(get_long(&r, 3, 0), Ok(Some(1 << 40)));
    assert_eq!(get_bool(&r, 2, 2), Ok(Some(true)));
    assert_eq!(get_list(&r, 0, 5), Ok(Some(vec!["a".to_string(), "b".to_string()])));
    assert_eq!(get_map(&r, 6, 0), Ok(Some(vec![("k".to_string(), "v".to_string())])));
}

#[test]
fn a_null_reads_as_absent_for_every_type() {
    let r = row();
    assert_eq!(get_str(&r, 0, 0), Ok(None));
    assert_eq!(get_int(&r, 0, 0), Ok(None));
    assert_eq!(get_long(&r, 0, 0), Ok(None));
    assert_eq!(get_bool(&r, 0, 0), Ok(None));
    assert_eq!(get_list(&r, 0, 0), Ok(None));
    assert_eq!(get_map(&r, 0, 0), Ok(None));
}

#[test]
fn a_value_of_another_type_is_a_mismatch() {
    let r = row();
    assert_eq!(get_str(&r, 0, 2), Err(Error::SchemaMismatch));
    assert_eq!(get_int(&r, 0, 3), Err(Error::SchemaMismatch));
    assert_eq!(get_long(&r, 0, 2), Err(Error::SchemaMismatch));
    assert_eq!(get_bool(&r, 0, 1), Err(Error::SchemaMismatch));
    assert_eq!(get_list(&r, 0, 6), Err(Error::SchemaMismatch));
    assert_eq!(get_map(&r, 0, 5), Err(Error::SchemaMismatch));
}

#[test]
fn a_column_beyond_the_row_is_a_mismatch() {
    let r = row();
    assert_eq!(get_str(&r, 7, 0), Err(Error::SchemaMismatch));
    assert_eq!(get_str(&r, 3, 4), Err(Error::SchemaMismatch));
    assert_eq!(get_long(&r, usize::MAX, 0), Err(Error::SchemaMismatch));
    assert_eq!(get_long(&r, usize::MAX, 4), Err(Error::SchemaMismatch));
    assert_eq!(get_int(&vec![], 0, 0), Err(Error::SchemaMismatch));
}

#[test]
fn a_cell_is_found_behind_its_offset() {
    let r = row();
    assert_eq!(cell(&r, 2, 2), Some(&Cell::Bool(true)));
    assert_eq!(cell(&r, 6, 0), Some(&Cell::Dict(vec![("k".to_string(), "v".to_string())])));
    assert_eq!(cell(&r, 6, 1), None);
    assert_eq!(cell(&r, usize::MAX, 1), None);
}

#[test]
fn a_mandatory_field_needs_a_value() {
    assert_eq!(require(Ok(Some(5))), Ok(5));
    assert_eq!(require::<i32>(Ok(None)), Err(Error::MalformedAction));
    assert_eq!(require::<i32>(Err(Error::SchemaMismatch)), Err(Error::SchemaMismatch));
}

#[test]
fn copies_equal_what_they_copy() {
    let strings = vec!["x".to_string(), "".to_string(), "yz".to_string()];
    assert_eq!(copy_strings(&strings), strings);
    assert_eq!(copy_strings(&vec![]), Vec::<String>::new());
    let pairs = vec![("a".to_string(), "1".to_string()), ("b".to_string(), "2".to_string())];
    assert_eq!(copy_pairs(&pairs), pairs);
}

#[test]
fn a_batch_counts_its_rows() {
    assert_eq!(Batch::new(vec![]).len(), 0);
    assert_eq!(Batch::new(vec![row(), vec![], row()]).len(), 3);
}
