//! The five kinds of log action, and the decoding of each from the columns
//! of a row.
//!
//! Every kind occupies a run of leaf columns that starts at the kind's offset.
//! Its first column identifies it: a row encodes the kind exactly when that
//! column holds a value.

use crate::batch::{
    column, get_int, get_list, get_long, get_map, get_str, read_int, read_list, read_long,
    read_map, read_str, require, required, row_view, Cell, CellView,
};
use crate::error::Error;
use vstd::prelude::*;

verus! {

/// Reference to the bitmap of the rows that are deleted from a data file.
#[derive(Debug, PartialEq, Eq)]
pub struct DeletionVector {
    pub storage_type: String,
    pub path_or_inline_dv: String,
    pub offset: Option<i32>,
    pub size_in_bytes: i32,
    pub cardinality: i64,
}

/// What a [`DeletionVector`] holds, as mathematics.
pub struct DeletionVectorView {
    pub storage_type: Seq<char>,
    pub path_or_inline_dv: Seq<char>,
    pub offset: Option<i32>,
    pub size_in_bytes: i32,
    pub cardinality: i64,
}

impl View for DeletionVector {
    type V = DeletionVectorView;

    open spec fn view(&self) -> DeletionVectorView {
        DeletionVectorView {
            storage_type: self.storage_type@,
            path_or_inline_dv: self.path_or_inline_dv@,
            offset: self.offset,
            size_in_bytes: self.size_in_bytes,
            cardinality: self.cardinality,
        }
    }
}

/// The view of an optional deletion vector.
pub open spec fn vector_view(vector: Option<DeletionVector>) -> Option<DeletionVectorView> {
    match vector {
        Some(v) => Some(v@),
        None => None,
    }
}

/// A data file joins the table.
#[derive(Debug, PartialEq, Eq)]
pub struct Add {
    pub path: String,
    pub partition_values: Vec<(String, String)>,
    pub size: i64,
    pub modification_time: i64,
    /// Statistics payload, as written in the log.
    pub stats: Option<String>,
    pub deletion_vector: Option<DeletionVector>,
}

/// What an [`Add`] holds, as mathematics.
pub struct AddView {
    pub path: Seq<char>,
    pub partition_values: Seq<(Seq<char>, Seq<char>)>,
    pub size: i64,
    pub modification_time: i64,
    pub stats: Option<Seq<char>>,
    pub deletion_vector: Option<DeletionVectorView>,
}

impl View for Add {
    type V = AddView;

    open spec fn view(&self) -> AddView {
        AddView {
            path: self.path@,
            partition_values: self.partition_values.deep_view(),
            size: self.size,
            modification_time: self.modification_time,
            stats: self.stats.deep_view(),
            deletion_vector: vector_view(self.deletion_vector),
        }
    }
}

/// A data file leaves the table.
#[derive(Debug, PartialEq, Eq)]
pub struct Remove {
    pub path: String,
    pub partition_values: Option<Vec<(String, String)>>,
    pub size: Option<i64>,
    pub deletion_timestamp: Option<i64>,
    pub deletion_vector: Option<DeletionVector>,
}

/// What a [`Remove`] holds, as mathematics.
pub struct RemoveView {
    pub path: Seq<char>,
    pub partition_values: Option<Seq<(Seq<char>, Seq<char>)>>,
    pub size: Option<i64>,
    pub deletion_timestamp: Option<i64>,
    pub deletion_vector: Option<DeletionVectorView>,
}

impl View for Remove {
    type V = RemoveView;

    open spec fn view(&self) -> RemoveView {
        RemoveView {
            path: self.path@,
            partition_values: self.partition_values.deep_view(),
            size: self.size,
            deletion_timestamp: self.deletion_timestamp,
            deletion_vector: vector_view(self.deletion_vector),
        }
    }
}

/// The table's identity, schema and configuration.
#[derive(Debug, PartialEq, Eq)]
pub struct Metadata {
    pub id: String,
    pub schema_string: String,
    pub configuration: Vec<(String, String)>,
}

/// What a [`Metadata`] holds, as mathematics.
pub struct MetadataView {
    pub id: Seq<char>,
    pub schema_string: Seq<char>,
    pub configuration: Seq<(Seq<char>, Seq<char>)>,
}

impl View for Metadata {
    type V = MetadataView;

    open spec fn view(&self) -> MetadataView {
        MetadataView {
            id: self.id@,
            schema_string: self.schema_string@,
            configuration: self.configuration.deep_view(),
        }
    }
}

/// The versions and features that a reader or writer of the table must
/// support.
#[derive(Debug, PartialEq, Eq)]
pub struct Protocol {
    pub min_reader_version: i32,
    pub min_writer_version: i32,
    pub reader_features: Option<Vec<String>>,
    pub writer_features: Option<Vec<String>>,
}

/// What a [`Protocol`] holds, as mathematics.
pub struct ProtocolView {
    pub min_reader_version: i32,
    pub min_writer_version: i32,
    pub reader_features: Option<Seq<Seq<char>>>,
    pub writer_features: Option<Seq<Seq<char>>>,
}

impl View for Protocol {
    type V = ProtocolView;

    open spec fn view(&self) -> ProtocolView {
        ProtocolView {
            min_reader_version: self.min_reader_version,
            min_writer_version: self.min_writer_version,
            reader_features: self.reader_features.deep_view(),
            writer_features: self.writer_features.deep_view(),
        }
    }
}

/// The last version that an application has committed.
#[derive(Debug, PartialEq, Eq)]
pub struct SetTransaction {
    pub app_id: String,
    pub version: i64,
}

/// What a [`SetTransaction`] holds, as mathematics.
pub struct SetTransactionView {
    pub app_id: Seq<char>,
    pub version: i64,
}

impl View for SetTransaction {
    type V = SetTransactionView;

    open spec fn view(&self) -> SetTransactionView {
        SetTransactionView { app_id: self.app_id@, version: self.version }
    }
}

/// One decoded log record, with the index of its row in total replay order.
#[derive(Debug, PartialEq, Eq)]
pub enum Action {
    Metadata(Metadata, usize),
    Protocol(Protocol, usize),
    Remove(Remove, usize),
    Add(Add, usize),
    SetTransaction(SetTransaction, usize),
}

/// What an [`Action`] holds, as mathematics.
pub enum ActionView {
    Metadata(MetadataView, int),
    Protocol(ProtocolView, int),
    Remove(RemoveView, int),
    Add(AddView, int),
    SetTransaction(SetTransactionView, int),
}

impl ActionView {
    /// Index of the action's row in total replay order.
    pub open spec fn row(self) -> int {
        match self {
            ActionView::Metadata(_, row) => row,
            ActionView::Protocol(_, row) => row,
            ActionView::Remove(_, row) => row,
            ActionView::Add(_, row) => row,
            ActionView::SetTransaction(_, row) => row,
        }
    }
}

impl View for Action {
    type V = ActionView;

    open spec fn view(&self) -> ActionView {
        match self {
            Action::Metadata(m, row) => ActionView::Metadata(m@, *row as int),
            Action::Protocol(p, row) => ActionView::Protocol(p@, *row as int),
            Action::Remove(r, row) => ActionView::Remove(r@, *row as int),
            Action::Add(a, row) => ActionView::Add(a@, *row as int),
            Action::SetTransaction(t, row) => ActionView::SetTransaction(t@, *row as int),
        }
    }
}

/// The views of a sequence of actions.
pub open spec fn actions_view(actions: Seq<Action>) -> Seq<ActionView> {
    Seq::new(actions.len(), |i: int| actions[i]@)
}

impl Action {
    /// Index of the action's row in total replay order.
    pub fn row(&self) -> (row: usize)
        ensures
            row == self@.row(),
    {
        match self {
            Action::Metadata(_, row) => *row,
            Action::Protocol(_, row) => *row,
            Action::Remove(_, row) => *row,
            Action::Add(_, row) => *row,
            Action::SetTransaction(_, row) => *row,
        }
    }
}

/// Number of leaf columns of a deletion vector.
pub const VECTOR_WIDTH: usize = 5;

/// Number of leaf columns of an add action: path, partition values, size,
/// modification time, statistics, then the deletion vector.
pub const ADD_WIDTH: usize = 10;

/// Number of leaf columns of a remove action: path, partition values, size,
/// deletion timestamp, then the deletion vector.
pub const REMOVE_WIDTH: usize = 9;

/// Number of leaf columns of a metadata action: id, schema string,
/// configuration.
pub const METADATA_WIDTH: usize = 3;

/// Number of leaf columns of a protocol action: minimum reader version,
/// minimum writer version, reader features, writer features.
pub const PROTOCOL_WIDTH: usize = 4;

/// Number of leaf columns of a transaction action: application id, version.
pub const TXN_WIDTH: usize = 2;

/// The deletion vector whose five columns begin at column `at`: none where
/// the storage type is absent; else the path, the size and the cardinality
/// are mandatory and the offset is optional.
pub open spec fn decode_vector(row: Seq<CellView>, at: int) -> Result<
    Option<DeletionVectorView>,
    Error,
> {
    match read_str(row, at) {
        Err(e) => Err(e),
        Ok(None) => Ok(None),
        Ok(Some(storage_type)) => match required(read_str(row, at + 1)) {
            Err(e) => Err(e),
            Ok(path_or_inline_dv) => match read_int(row, at + 2) {
                Err(e) => Err(e),
                Ok(offset) => match required(read_int(row, at + 3)) {
                    Err(e) => Err(e),
                    Ok(size_in_bytes) => match required(read_long(row, at + 4)) {
                        Err(e) => Err(e),
                        Ok(cardinality) => Ok(
                            Some(
                                DeletionVectorView {
                                    storage_type,
                                    path_or_inline_dv,
                                    offset,
                                    size_in_bytes,
                                    cardinality,
                                },
                            ),
                        ),
                    },
                },
            },
        },
    }
}

/// The add action whose columns begin at column `at`: none where the path is
/// absent; else partition values, size and modification time are mandatory,
/// statistics and deletion vector optional. Fields are read in column order
/// and the first failure is the result.
pub open spec fn decode_add(row: Seq<CellView>, at: int) -> Result<Option<AddView>, Error> {
    match read_str(row, at) {
        Err(e) => Err(e),
        Ok(None) => Ok(None),
        Ok(Some(path)) => match required(read_map(row, at + 1)) {
            Err(e) => Err(e),
            Ok(partition_values) => match required(read_long(row, at + 2)) {
                Err(e) => Err(e),
                Ok(size) => match required(read_long(row, at + 3)) {
                    Err(e) => Err(e),
                    Ok(modification_time) => match read_str(row, at + 4) {
                        Err(e) => Err(e),
                        Ok(stats) => match decode_vector(row, at + 5) {
                            Err(e) => Err(e),
                            Ok(deletion_vector) => Ok(
                                Some(
                                    AddView {
                                        path,
                                        partition_values,
                                        size,
                                        modification_time,
                                        stats,
                                        deletion_vector,
                                    },
                                ),
                            ),
                        },
                    },
                },
            },
        },
    }
}

/// The remove action whose columns begin at column `at`: none where the path
/// is absent; every other field is optional.
pub open spec fn decode_remove(row: Seq<CellView>, at: int) -> Result<Option<RemoveView>, Error> {
    match read_str(row, at) {
        Err(e) => Err(e),
        Ok(None) => Ok(None),
        Ok(Some(path)) => match read_map(row, at + 1) {
            Err(e) => Err(e),
            Ok(partition_values) => match read_long(row, at + 2) {
                Err(e) => Err(e),
                Ok(size) => match read_long(row, at + 3) {
                    Err(e) => Err(e),
                    Ok(deletion_timestamp) => match decode_vector(row, at + 4) {
                        Err(e) => Err(e),
                        Ok(deletion_vector) => Ok(
                            Some(
                                RemoveView {
                                    path,
                                    partition_values,
                                    size,
                                    deletion_timestamp,
                                    deletion_vector,
                                },
                            ),
                        ),
                    },
                },
            },
        },
    }
}

/// The metadata action whose columns begin at column `at`: none where the id
/// is absent; else schema string and configuration are mandatory.
pub open spec fn decode_metadata(row: Seq<CellView>, at: int) -> Result<
    Option<MetadataView>,
    Error,
> {
    match read_str(row, at) {
        Err(e) => Err(e),
        Ok(None) => Ok(None),
        Ok(Some(id)) => match required(read_str(row, at + 1)) {
            Err(e) => Err(e),
            Ok(schema_string) => match required(read_map(row, at + 2)) {
                Err(e) => Err(e),
                Ok(configuration) => Ok(Some(MetadataView { id, schema_string, configuration })),
            },
        },
    }
}

/// The protocol action whose columns begin at column `at`: none where the
/// minimum reader version is absent; else the minimum writer version is
/// mandatory and the feature lists are optional.
pub open spec fn decode_protocol(row: Seq<CellView>, at: int) -> Result<
    Option<ProtocolView>,
    Error,
> {
    match read_int(row, at) {
        Err(e) => Err(e),
        Ok(None) => Ok(None),
        Ok(Some(min_reader_version)) => match required(read_int(row, at + 1)) {
            Err(e) => Err(e),
            Ok(min_writer_version) => match read_list(row, at + 2) {
                Err(e) => Err(e),
                Ok(reader_features) => match read_list(row, at + 3) {
                    Err(e) => Err(e),
                    Ok(writer_features) => Ok(
                        Some(
                            ProtocolView {
                                min_reader_version,
                                min_writer_version,
                                reader_features,
                                writer_features,
                            },
                        ),
                    ),
                },
            },
        },
    }
}

/// The transaction action whose columns begin at column `at`: none where the
/// application id is absent; else the version is mandatory.
pub open spec fn decode_txn(row: Seq<CellView>, at: int) -> Result<
    Option<SetTransactionView>,
    Error,
> {
    match read_str(row, at) {
        Err(e) => Err(e),
        Ok(None) => Ok(None),
        Ok(Some(app_id)) => match required(read_long(row, at + 1)) {
            Err(e) => Err(e),
            Ok(version) => Ok(Some(SetTransactionView { app_id, version })),
        },
    }
}

/// What a decoder found, as mathematics.
pub open spec fn decoded<T: View>(found: Result<Option<T>, Error>) -> Result<Option<T::V>, Error> {
    match found {
        Ok(Some(value)) => Ok(Some(value@)),
        Ok(None) => Ok(None),
        Err(e) => Err(e),
    }
}

/// Decodes the deletion vector whose columns begin `first` columns behind
/// `offset`.
fn visit_vector(row: &Vec<Cell>, offset: usize, first: usize) -> (found: Result<
    Option<DeletionVector>,
    Error,
>)
    requires
        first <= ADD_WIDTH,
    ensures
        decoded(found) == decode_vector(row_view(row@), column(offset, first)),
{
    match get_str(row, offset, first)? {
        None => Ok(None),
        Some(storage_type) => {
            let path_or_inline_dv = require(get_str(row, offset, first + 1))?;
            let dv_offset = get_int(row, offset, first + 2)?;
            let size_in_bytes = require(get_int(row, offset, first + 3))?;
            let cardinality = require(get_long(row, offset, first + 4))?;
            Ok(
                Some(
                    DeletionVector {
                        storage_type,
                        path_or_inline_dv,
                        offset: dv_offset,
                        size_in_bytes,
                        cardinality,
                    },
                ),
            )
        },
    }
}

/// Decodes the add action whose columns begin at `offset`, if the row holds
/// one.
pub fn visit_add(row: &Vec<Cell>, offset: usize) -> (found: Result<Option<Add>, Error>)
    ensures
        decoded(found) == decode_add(row_view(row@), offset as int),
{
    match get_str(row, offset, 0)? {
        None => Ok(None),
        Some(path) => {
            let partition_values = require(get_map(row, offset, 1))?;
            let size = require(get_long(row, offset, 2))?;
            let modification_time = require(get_long(row, offset, 3))?;
            let stats = get_str(row, offset, 4)?;
            let deletion_vector = visit_vector(row, offset, 5)?;
            Ok(
                Some(
                    Add {
                        path,
                        partition_values,
                        size,
                        modification_time,
                        stats,
                        deletion_vector,
                    },
                ),
            )
        },
    }
}

/// Decodes the remove action whose columns begin at `offset`, if the row
/// holds one.
pub fn visit_remove(row: &Vec<Cell>, offset: usize) -> (found: Result<Option<Remove>, Error>)
    ensures
        decoded(found) == decode_remove(row_view(row@), offset as int),
{
    match get_str(row, offset, 0)? {
        None => Ok(None),
        Some(path) => {
            let partition_values = get_map(row, offset, 1)?;
            let size = get_long(row, offset, 2)?;
            let deletion_timestamp = get_long(row, offset, 3)?;
            let deletion_vector = visit_vector(row, offset, 4)?;
            Ok(Some(Remove { path, partition_values, size, deletion_timestamp, deletion_vector }))
        },
    }
}

/// Decodes the metadata action whose columns begin at `offset`, if the row
/// holds one.
pub fn visit_metadata(row: &Vec<Cell>, offset: usize) -> (found: Result<Option<Metadata>, Error>)
    ensures
        decoded(found) == decode_metadata(row_view(row@), offset as int),
{
    match get_str(row, offset, 0)? {
        None => Ok(None),
        Some(id) => {
            let schema_string = require(get_str(row, offset, 1))?;
            let configuration = require(get_map(row, offset, 2))?;
            Ok(Some(Metadata { id, schema_string, configuration }))
        },
    }
}

/// Decodes the protocol action whose columns begin at `offset`, if the row
/// holds one.
pub fn visit_protocol(row: &Vec<Cell>, offset: usize) -> (found: Result<Option<Protocol>, Error>)
    ensures
        decoded(found) == decode_protocol(row_view(row@), offset as int),
{
    match get_int(row, offset, 0)? {
        None => Ok(None),
        Some(min_reader_version) => {
            let min_writer_version = require(get_int(row, offset, 1))?;
            let reader_features = get_list(row, offset, 2)?;
            let writer_features = get_list(row, offset, 3)?;
            Ok(
                Some(
                    Protocol {
                        min_reader_version,
                        min_writer_version,
                        reader_features,
                        writer_features,
                    },
                ),
            )
        },
    }
}

/// Decodes the transaction action whose columns begin at `offset`, if the row
/// holds one.
pub fn visit_txn(row: &Vec<Cell>, offset: usize) -> (found: Result<Option<SetTransaction>, Error>)
    ensures
        decoded(found) == decode_txn(row_view(row@), offset as int),
{
    match get_str(row, offset, 0)? {
        None => Ok(None),
        Some(app_id) => {
            let version = require(get_long(row, offset, 1))?;
            Ok(Some(SetTransaction { app_id, version }))
        },
    }
}

} // verus!
