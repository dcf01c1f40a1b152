//! The canonical schema of a log row: one nullable record for each action
//! kind, with the leaf columns that the decoders read, in their order.

use crate::actions::{ADD_WIDTH, METADATA_WIDTH, PROTOCOL_WIDTH, REMOVE_WIDTH, TXN_WIDTH};
use crate::schema::{
    all_nullable, children, field_names, fields_view, leaf_count, leaf_count_all, leaf_names,
    leaf_names_all, leaf_types, leaf_types_all, nullable_throughout, offset_of, ActionOffsets,
    has_field,
    DataType, DataTypeView, Field, FieldView, StructType,
};
use vstd::prelude::*;

verus! {

/// The names of the top-level fields of the log schema.
pub open spec fn log_field_names() -> Seq<Seq<char>> {
    seq!["add"@, "remove"@, "metaData"@, "protocol"@, "txn"@]
}

/// The fields of an add action.
pub open spec fn add_fields() -> Seq<Seq<char>> {
    seq![
        "path"@,
        "partitionValues"@,
        "size"@,
        "modificationTime"@,
        "stats"@,
        "deletionVector"@,
    ]
}

/// The fields of a remove action.
pub open spec fn remove_fields() -> Seq<Seq<char>> {
    seq!["path"@, "partitionValues"@, "size"@, "deletionTimestamp"@, "deletionVector"@]
}

/// The leaf columns of a deletion vector.
pub open spec fn vector_leaves() -> Seq<Seq<char>> {
    seq!["storageType"@, "pathOrInlineDv"@, "offset"@, "sizeInBytes"@, "cardinality"@]
}

/// The leaf columns of an add action.
pub open spec fn add_leaves() -> Seq<Seq<char>> {
    seq!["path"@, "partitionValues"@, "size"@, "modificationTime"@, "stats"@] + vector_leaves()
}

/// The leaf columns of a remove action.
pub open spec fn remove_leaves() -> Seq<Seq<char>> {
    seq!["path"@, "partitionValues"@, "size"@, "deletionTimestamp"@] + vector_leaves()
}

/// The leaf columns of a metadata action.
pub open spec fn metadata_leaves() -> Seq<Seq<char>> {
    seq!["id"@, "schemaString"@, "configuration"@]
}

/// The leaf columns of a protocol action.
pub open spec fn protocol_leaves() -> Seq<Seq<char>> {
    seq!["minReaderVersion"@, "minWriterVersion"@, "readerFeatures"@, "writerFeatures"@]
}

/// The leaf columns of a transaction action.
pub open spec fn txn_leaves() -> Seq<Seq<char>> {
    seq!["appId"@, "version"@]
}

/// The types of the leaf columns of a deletion vector.
pub open spec fn vector_types() -> Seq<DataTypeView> {
    seq![
        DataTypeView::String,
        DataTypeView::String,
        DataTypeView::Integer,
        DataTypeView::Integer,
        DataTypeView::Long,
    ]
}

/// The types of the leaf columns of an add action.
pub open spec fn add_types() -> Seq<DataTypeView> {
    seq![
        DataTypeView::String,
        DataTypeView::StringMap,
        DataTypeView::Long,
        DataTypeView::Long,
        DataTypeView::String,
    ] + vector_types()
}

/// The types of the leaf columns of a remove action.
pub open spec fn remove_types() -> Seq<DataTypeView> {
    seq![
        DataTypeView::String,
        DataTypeView::StringMap,
        DataTypeView::Long,
        DataTypeView::Long,
    ] + vector_types()
}

/// The types of the leaf columns of a metadata action.
pub open spec fn metadata_types() -> Seq<DataTypeView> {
    seq![DataTypeView::String, DataTypeView::String, DataTypeView::StringMap]
}

/// The types of the leaf columns of a protocol action.
pub open spec fn protocol_types() -> Seq<DataTypeView> {
    seq![
        DataTypeView::Integer,
        DataTypeView::Integer,
        DataTypeView::StringList,
        DataTypeView::StringList,
    ]
}

/// The types of the leaf columns of a transaction action.
pub open spec fn txn_types() -> Seq<DataTypeView> {
    seq![DataTypeView::String, DataTypeView::Long]
}

/// The offsets of the action kinds in the log schema.
pub open spec fn log_offsets() -> ActionOffsets {
    ActionOffsets {
        add: 0,
        remove: ADD_WIDTH,
        metadata: (ADD_WIDTH + REMOVE_WIDTH) as usize,
        protocol: (ADD_WIDTH + REMOVE_WIDTH + METADATA_WIDTH) as usize,
        txn: (ADD_WIDTH + REMOVE_WIDTH + METADATA_WIDTH + PROTOCOL_WIDTH) as usize,
        has_add: true,
        has_remove: true,
        has_metadata: true,
        has_protocol: true,
        has_txn: true,
    }
}

/// Whether `schema` is laid out as the log schema: the five action records
/// in the order add, remove, metadata, protocol, transaction, each with its
/// fields, its leaf columns and their types, and every field nullable. The
/// deletion vector is a record nested in the add and in the remove record;
/// every other field is a leaf.
pub open spec fn is_log_schema(schema: Seq<FieldView>) -> bool {
    &&& field_names(schema) == log_field_names()
    &&& field_names(children(schema[0])) == add_fields()
    &&& field_names(children(children(schema[0])[5])) == vector_leaves()
    &&& field_names(children(schema[1])) == remove_fields()
    &&& field_names(children(children(schema[1])[4])) == vector_leaves()
    &&& field_names(children(schema[2])) == metadata_leaves()
    &&& field_names(children(schema[3])) == protocol_leaves()
    &&& field_names(children(schema[4])) == txn_leaves()
    &&& all_nullable(schema)
    &&& leaf_types(schema[0]) == add_types()
    &&& leaf_types(schema[1]) == remove_types()
    &&& leaf_types(schema[2]) == metadata_types()
    &&& leaf_types(schema[3]) == protocol_types()
    &&& leaf_types(schema[4]) == txn_types()
    &&& leaf_names(schema[0]) == add_leaves()
    &&& leaf_names(schema[1]) == remove_leaves()
    &&& leaf_names(schema[2]) == metadata_leaves()
    &&& leaf_names(schema[3]) == protocol_leaves()
    &&& leaf_names(schema[4]) == txn_leaves()
    &&& leaf_count(schema[0]) == ADD_WIDTH
    &&& leaf_count(schema[1]) == REMOVE_WIDTH
    &&& leaf_count(schema[2]) == METADATA_WIDTH
    &&& leaf_count(schema[3]) == PROTOCOL_WIDTH
    &&& leaf_count(schema[4]) == TXN_WIDTH
}

/// A nullable field that is no record.
fn leaf(name: &str, data_type: DataType) -> (field: Field)
    requires
        data_type !is Struct,
    ensures
        field@.name == name@,
        children(field@) == Seq::<FieldView>::empty(),
        leaf_names(field@) == seq![name@],
        leaf_types(field@) == seq![data_type@],
        leaf_count(field@) == 1,
        nullable_throughout(field@),
{
    Field::new(name, data_type, true)
}

/// A nullable record of the given fields.
fn record(name: &str, fields: Vec<Field>) -> (field: Field)
    ensures
        field@.name == name@,
        leaf_names(field@) == leaf_names_all(fields_view(fields@)),
        leaf_types(field@) == leaf_types_all(fields_view(fields@)),
        leaf_count(field@) == leaf_count_all(fields_view(fields@)),
        nullable_throughout(field@) == all_nullable(fields_view(fields@)),
        children(field@) == fields_view(fields@),
{
    Field::new(name, DataType::Struct(fields), true)
}

/// Appends a field.
fn push_field(fields: &mut Vec<Field>, field: Field)
    ensures
        final(fields)@ == old(fields)@.push(field),
        fields_view(final(fields)@) == fields_view(old(fields)@).push(field@),
        leaf_names_all(fields_view(final(fields)@)) == leaf_names_all(fields_view(old(fields)@))
            + leaf_names(field@),
        leaf_types_all(fields_view(final(fields)@)) == leaf_types_all(fields_view(old(fields)@))
            + leaf_types(field@),
        all_nullable(fields_view(final(fields)@)) == (all_nullable(fields_view(old(fields)@))
            && nullable_throughout(field@)),
        leaf_count_all(fields_view(final(fields)@)) == leaf_count_all(fields_view(old(fields)@))
            + leaf_count(field@),
        forall|name: Seq<char>|
            #[trigger] offset_of(fields_view(final(fields)@), name) == if field@.name == name {
                leaf_count_all(fields_view(old(fields)@))
            } else {
                offset_of(fields_view(old(fields)@), name)
            },
{
    let ghost before = fields@;
    fields.push(field);
    assert(fields@.drop_last() =~= before);
    assert(fields_view(fields@).drop_last() =~= fields_view(before));
}

/// The fields of a deletion vector.
fn vector_fields() -> (fields: Vec<Field>)
    ensures
        field_names(fields_view(fields@)) == vector_leaves(),
        leaf_names_all(fields_view(fields@)) == vector_leaves(),
        leaf_types_all(fields_view(fields@)) == vector_types(),
        all_nullable(fields_view(fields@)),
        leaf_count_all(fields_view(fields@)) == 5,
{
    let mut fields: Vec<Field> = Vec::new();
    push_field(&mut fields, leaf("storageType", DataType::String));
    push_field(&mut fields, leaf("pathOrInlineDv", DataType::String));
    push_field(&mut fields, leaf("offset", DataType::Integer));
    push_field(&mut fields, leaf("sizeInBytes", DataType::Integer));
    push_field(&mut fields, leaf("cardinality", DataType::Long));
    assert(field_names(fields_view(fields@)) =~= vector_leaves());
    assert(leaf_names_all(fields_view(fields@)) =~= vector_leaves());
    assert(leaf_types_all(fields_view(fields@)) =~= vector_types());
    fields
}

/// The record of an add action.
fn add_record() -> (field: Field)
    ensures
        field@.name == "add"@,
        field_names(children(field@)) == add_fields(),
        field_names(children(children(field@)[5])) == vector_leaves(),
        leaf_names(field@) == add_leaves(),
        leaf_types(field@) == add_types(),
        nullable_throughout(field@),
        leaf_count(field@) == ADD_WIDTH,
{
    let mut fields: Vec<Field> = Vec::new();
    push_field(&mut fields, leaf("path", DataType::String));
    push_field(&mut fields, leaf("partitionValues", DataType::StringMap));
    push_field(&mut fields, leaf("size", DataType::Long));
    push_field(&mut fields, leaf("modificationTime", DataType::Long));
    push_field(&mut fields, leaf("stats", DataType::String));
    push_field(&mut fields, record("deletionVector", vector_fields()));
    assert(field_names(fields_view(fields@)) =~= add_fields());
    assert(leaf_names_all(fields_view(fields@)) =~= add_leaves());
    assert(leaf_types_all(fields_view(fields@)) =~= add_types());
    record("add", fields)
}

/// The record of a remove action.
fn remove_record() -> (field: Field)
    ensures
        field@.name == "remove"@,
        field_names(children(field@)) == remove_fields(),
        field_names(children(children(field@)[4])) == vector_leaves(),
        leaf_names(field@) == remove_leaves(),
        leaf_types(field@) == remove_types(),
        nullable_throughout(field@),
        leaf_count(field@) == REMOVE_WIDTH,
{
    let mut fields: Vec<Field> = Vec::new();
    push_field(&mut fields, leaf("path", DataType::String));
    push_field(&mut fields, leaf("partitionValues", DataType::StringMap));
    push_field(&mut fields, leaf("size", DataType::Long));
    push_field(&mut fields, leaf("deletionTimestamp", DataType::Long));
    push_field(&mut fields, record("deletionVector", vector_fields()));
    assert(field_names(fields_view(fields@)) =~= remove_fields());
    assert(leaf_names_all(fields_view(fields@)) =~= remove_leaves());
    assert(leaf_types_all(fields_view(fields@)) =~= remove_types());
    record("remove", fields)
}

/// The record of a metadata action.
fn metadata_record() -> (field: Field)
    ensures
        field@.name == "metaData"@,
        field_names(children(field@)) == metadata_leaves(),
        leaf_names(field@) == metadata_leaves(),
        leaf_types(field@) == metadata_types(),
        nullable_throughout(field@),
        leaf_count(field@) == METADATA_WIDTH,
{
    let mut fields: Vec<Field> = Vec::new();
    push_field(&mut fields, leaf("id", DataType::String));
    push_field(&mut fields, leaf("schemaString", DataType::String));
    push_field(&mut fields, leaf("configuration", DataType::StringMap));
    assert(field_names(fields_view(fields@)) =~= metadata_leaves());
    assert(leaf_names_all(fields_view(fields@)) =~= metadata_leaves());
    assert(leaf_types_all(fields_view(fields@)) =~= metadata_types());
    record("metaData", fields)
}

/// The record of a protocol action.
fn protocol_record() -> (field: Field)
    ensures
        field@.name == "protocol"@,
        field_names(children(field@)) == protocol_leaves(),
        leaf_names(field@) == protocol_leaves(),
        leaf_types(field@) == protocol_types(),
        nullable_throughout(field@),
        leaf_count(field@) == PROTOCOL_WIDTH,
{
    let mut fields: Vec<Field> = Vec::new();
    push_field(&mut fields, leaf("minReaderVersion", DataType::Integer));
    push_field(&mut fields, leaf("minWriterVersion", DataType::Integer));
    push_field(&mut fields, leaf("readerFeatures", DataType::StringList));
    push_field(&mut fields, leaf("writerFeatures", DataType::StringList));
    assert(field_names(fields_view(fields@)) =~= protocol_leaves());
    assert(leaf_names_all(fields_view(fields@)) =~= protocol_leaves());
    assert(leaf_types_all(fields_view(fields@)) =~= protocol_types());
    record("protocol", fields)
}

/// The record of a transaction action.
fn txn_record() -> (field: Field)
    ensures
        field@.name == "txn"@,
        field_names(children(field@)) == txn_leaves(),
        leaf_names(field@) == txn_leaves(),
        leaf_types(field@) == txn_types(),
        nullable_throughout(field@),
        leaf_count(field@) == TXN_WIDTH,
{
    let mut fields: Vec<Field> = Vec::new();
    push_field(&mut fields, leaf("appId", DataType::String));
    push_field(&mut fields, leaf("version", DataType::Long));
    assert(field_names(fields_view(fields@)) =~= txn_leaves());
    assert(leaf_names_all(fields_view(fields@)) =~= txn_leaves());
    assert(leaf_types_all(fields_view(fields@)) =~= txn_types());
    record("txn", fields)
}

/// The five action names differ from one another.
proof fn lemma_action_names_differ()
    ensures
        "add"@ != "remove"@,
        "add"@ != "metaData"@,
        "add"@ != "protocol"@,
        "add"@ != "txn"@,
        "remove"@ != "metaData"@,
        "remove"@ != "protocol"@,
        "remove"@ != "txn"@,
        "metaData"@ != "protocol"@,
        "metaData"@ != "txn"@,
        "protocol"@ != "txn"@,
{
    reveal_strlit("add");
    reveal_strlit("remove");
    reveal_strlit("metaData");
    reveal_strlit("protocol");
    reveal_strlit("txn");
    assert("add"@.len() == 3 && "remove"@.len() == 6 && "metaData"@.len() == 8);
    assert("protocol"@.len() == 8 && "txn"@.len() == 3);
    assert("add"@[0] == 'a' && "txn"@[0] == 't');
    assert("metaData"@[0] == 'm' && "protocol"@[0] == 'p');
}

/// The canonical schema by which the rows of a log are decoded, whatever
/// kinds of action they hold.
pub fn get_log_schema() -> (schema: StructType)
    ensures
        is_log_schema(schema@),
        schema.leaf_count() == ADD_WIDTH + REMOVE_WIDTH + METADATA_WIDTH + PROTOCOL_WIDTH
            + TXN_WIDTH,
        log_offsets().describes(schema@),
{
    proof {
        lemma_action_names_differ();
    }
    let mut fields: Vec<Field> = Vec::new();
    push_field(&mut fields, add_record());
    push_field(&mut fields, remove_record());
    push_field(&mut fields, metadata_record());
    push_field(&mut fields, protocol_record());
    push_field(&mut fields, txn_record());
    proof {
        let views = fields_view(fields@);
        assert(field_names(views) =~= log_field_names());
        assert(views[0].name == "add"@ && has_field(views, "add"@));
        assert(views[1].name == "remove"@ && has_field(views, "remove"@));
        assert(views[2].name == "metaData"@ && has_field(views, "metaData"@));
        assert(views[3].name == "protocol"@ && has_field(views, "protocol"@));
        assert(views[4].name == "txn"@ && has_field(views, "txn"@));
    }
    StructType::new(fields)
}

} // verus!
