//! The structured records of the container as the `parquet` crate holds
//! them, and what the library takes from them. Nothing in this file is
//! proved: each contract states what the library relies on.

use crate::metadata::ColumnChunkLayout;
use crate::metadata::ColumnLayout;
use crate::metadata::KeyValue;
use std::sync::Arc;
use vstd::prelude::*;

verus! {

/// `parquet::format::PageHeader`: the decoded header of one page.
#[verifier::external_type_specification]
#[verifier::external_body]
pub struct ExPageHeader(parquet::format::PageHeader);

/// `parquet::format::OffsetIndex`: the decoded page locations of one column chunk.
#[verifier::external_type_specification]
#[verifier::external_body]
pub struct ExOffsetIndex(parquet::format::OffsetIndex);

/// `parquet::format::ColumnIndex`: the decoded page statistics of one column chunk.
#[verifier::external_type_specification]
#[verifier::external_body]
pub struct ExColumnIndex(parquet::format::ColumnIndex);

/// `parquet::format::BloomFilterHeader`: the decoded header of one filter.
#[verifier::external_type_specification]
#[verifier::external_body]
pub struct ExBloomFilterHeader(parquet::format::BloomFilterHeader);

/// `parquet::format::FileMetaData`: the decoded metadata record of a file.
#[verifier::external_type_specification]
#[verifier::external_body]
pub struct ExFileMetaData(parquet::format::FileMetaData);

/// `parquet::format::RowGroup`: the metadata of one row group.
#[verifier::external_type_specification]
#[verifier::external_body]
pub struct ExRowGroup(parquet::format::RowGroup);

/// `parquet::format::ColumnChunk`: the metadata of one column chunk.
#[verifier::external_type_specification]
#[verifier::external_body]
pub struct ExColumnChunk(parquet::format::ColumnChunk);

/// `parquet::format::ColumnOrder`: the sort order of one column.
#[verifier::external_type_specification]
#[verifier::external_body]
pub struct ExColumnOrder(parquet::format::ColumnOrder);

/// `parquet::schema::types::Type`: a node of the schema tree.
#[verifier::external_type_specification]
#[verifier::external_body]
pub struct ExSchemaType(parquet::schema::types::Type);

/// `parquet::errors::ParquetError`: why a schema was refused.
#[verifier::external_type_specification]
#[verifier::external_body]
pub struct ExParquetError(parquet::errors::ParquetError);

/// The root of a schema tree.
pub type Field = Arc<parquet::schema::types::Type>;

/// A page header as the layout sees it: the number of bytes that it takes in
/// the file, the size of the payload that it declares, and the record itself.
pub struct PageHeaderValue {
    pub header_length: u64,
    pub compressed_page_size: i32,
    pub raw: Arc<parquet::format::PageHeader>,
}

/// A page header with the bytes that it was decoded from: those from `from`
/// up to `to`, of which it takes the first `header.header_length`.
pub struct PageHeaderAt {
    pub from: u64,
    pub to: u64,
    pub header: PageHeaderValue,
}

/// A decoded metadata record and the number of bytes that it took.
pub struct DecodedFooter {
    pub consumed: u64,
    pub raw: parquet::format::FileMetaData,
}

/// The fields of a metadata record, but for its schema.
pub struct FooterFields {
    pub version: i32,
    pub num_rows: i64,
    pub created_by: Option<String>,
    pub key_value_metadata: Option<Vec<KeyValue>>,
    pub column_orders: Option<Vec<parquet::format::ColumnOrder>>,
    pub row_groups: Vec<parquet::format::RowGroup>,
}

/// Whether `parquet::schema::types::from_thrift` makes a tree of the schema
/// elements of `metadata`.
pub uninterp spec fn schema_converts(metadata: parquet::format::FileMetaData) -> bool;

/// What `parquet::schema::printer::print_schema` writes for `schema`.
pub uninterp spec fn schema_message(schema: parquet::schema::types::Type) -> Seq<char>;

/// The fields of `metadata`, but for its schema, as a record of the
/// library's.
pub uninterp spec fn record_fields(metadata: parquet::format::FileMetaData) -> FooterFields;

/// The field `file_offset` of `row_group`.
pub uninterp spec fn declared_file_offset(row_group: parquet::format::RowGroup) -> Option<i64>;

/// The field `columns` of `row_group`.
pub uninterp spec fn declared_columns(row_group: parquet::format::RowGroup) -> Seq<
    parquet::format::ColumnChunk,
>;

/// The offsets and sizes that `chunk` holds, and the path of its column,
/// as a record of the library's.
pub uninterp spec fn declared_ranges(chunk: parquet::format::ColumnChunk) -> ColumnChunkLayout;

/// Calls `parquet::schema::types::from_thrift` on the schema elements of
/// `metadata`. The contract claims that whether a tree comes back depends
/// on the record alone.
#[verifier::external_body]
pub(crate) fn schema_of(metadata: &parquet::format::FileMetaData) -> (r: Result<
    Field,
    parquet::errors::ParquetError,
>)
    ensures
        r is Ok == schema_converts(*metadata),
{
    parquet::schema::types::from_thrift(&metadata.schema)
}

/// Calls `parquet::schema::printer::print_schema` on `schema_root` and hands
/// back what it wrote, read as UTF-8. The contract claims that the text
/// depends on the schema alone.
#[verifier::external_body]
pub(crate) fn schema_text(schema_root: &Field) -> (r: String)
    ensures
        r@ == schema_message(**schema_root),
{
    let mut out = vec![];
    parquet::schema::printer::print_schema(&mut out, schema_root);
    String::from_utf8_lossy(&out).to_string()
}

/// Moves the fields of a `parquet::format::FileMetaData` into a record of
/// the library's. The contract claims that the record depends on the
/// metadata alone.
#[verifier::external_body]
pub(crate) fn footer_fields(metadata: parquet::format::FileMetaData) -> (r: FooterFields)
    ensures
        r == record_fields(metadata),
{
    FooterFields {
        version: metadata.version,
        num_rows: metadata.num_rows,
        created_by: metadata.created_by,
        key_value_metadata: metadata.key_value_metadata.map(
            |pairs| pairs.into_iter().map(|p| KeyValue { key: p.key, value: p.value }).collect(),
        ),
        column_orders: metadata.column_orders,
        row_groups: metadata.row_groups,
    }
}

/// Picks the field `file_offset` of a `parquet::format::RowGroup`.
#[verifier::external_body]
pub(crate) fn row_group_file_offset(row_group: &parquet::format::RowGroup) -> (r: Option<i64>)
    ensures
        r == declared_file_offset(*row_group),
{
    row_group.file_offset
}

/// Picks the field `columns` of a `parquet::format::RowGroup`.
#[verifier::external_body]
pub(crate) fn row_group_columns(row_group: &parquet::format::RowGroup) -> (r: &Vec<
    parquet::format::ColumnChunk,
>)
    ensures
        r@ == declared_columns(*row_group),
{
    &row_group.columns
}

/// Copies the offsets and sizes of a `parquet::format::ColumnChunk`, and the
/// path of its column, into a record of the library's.
#[verifier::external_body]
pub(crate) fn column_chunk_layout(chunk: &parquet::format::ColumnChunk) -> (r: ColumnChunkLayout)
    ensures
        r == declared_ranges(*chunk),
{
    ColumnChunkLayout {
        column_index_offset: chunk.column_index_offset,
        column_index_length: chunk.column_index_length,
        offset_index_offset: chunk.offset_index_offset,
        offset_index_length: chunk.offset_index_length,
        meta_data: chunk.meta_data.as_ref().map(
            |m| ColumnLayout {
                dictionary_page_offset: m.dictionary_page_offset,
                data_page_offset: m.data_page_offset,
                total_compressed_size: m.total_compressed_size,
                path_in_schema: m.path_in_schema.clone(),
            },
        ),
    }
}

} // verus!
