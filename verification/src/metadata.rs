//! What the footer says in plain values: the key/value pairs of the file,
//! and the byte ranges that the row groups and column chunks declare.

use vstd::prelude::*;

verus! {

/// One pair of the key/value metadata of a file.
pub struct KeyValue {
    pub key: String,
    pub value: Option<String>,
}

/// Where the pages of one column chunk lie.
pub struct ColumnLayout {
    pub dictionary_page_offset: Option<i64>,
    pub data_page_offset: i64,
    pub total_compressed_size: i64,
    pub path_in_schema: Vec<String>,
}

/// What the metadata of one column chunk says of byte ranges.
pub struct ColumnChunkLayout {
    pub column_index_offset: Option<i64>,
    pub column_index_length: Option<i32>,
    pub offset_index_offset: Option<i64>,
    pub offset_index_length: Option<i32>,
    pub meta_data: Option<ColumnLayout>,
}

/// What the metadata of one row group says of byte ranges.
pub struct RowGroupLayout {
    pub file_offset: Option<i64>,
    pub columns: Vec<ColumnChunkLayout>,
}

} // verus!
