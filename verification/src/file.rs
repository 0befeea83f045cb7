//! A file as a whole: its frame of magic bytes and footer length, its
//! footer, and its layout.

use crate::error::FormatFault;
use crate::error::IoFault;
use crate::error::ParkhayError;
use crate::indexer::layout_of;
use crate::metadata::ColumnChunkLayout;
use crate::metadata::KeyValue;
use crate::metadata::RowGroupLayout;
use crate::section::ParkhayDataSection;
use crate::tiling::chunks_tiled;
use crate::wire::column_chunk_layout;
use crate::wire::declared_columns;
use crate::wire::declared_file_offset;
use crate::wire::declared_ranges;
use crate::wire::footer_fields;
use crate::wire::record_fields;
use crate::wire::row_group_columns;
use crate::wire::row_group_file_offset;
use crate::wire::schema_converts;
use crate::wire::schema_message;
use crate::wire::schema_of;
use crate::wire::schema_text;
use crate::wire::DecodedFooter;
use crate::wire::Field;
use crate::wire::FooterFields;
use crate::wire::PageHeaderAt;
use vstd::prelude::*;
use vstd::slice::slice_subrange;

verus! {

/// The number of bytes of the footer length field.
pub const FOOTER_LENGTH_LENGTH: u8 = 4;

/// The number of bytes of each magic.
pub const MAGIC_LENGTH: u8 = 4;

/// The four bytes that a file starts and ends with: `PAR1`.
pub open spec fn magic() -> Seq<u8> {
    seq![0x50u8, 0x41u8, 0x52u8, 0x31u8]
}

/// The unsigned number that four bytes spell, lowest byte first.
pub open spec fn little_endian(b: Seq<u8>) -> int {
    b[0] + 256 * b[1] + 65536 * b[2] + 16777216 * b[3]
}

/// The footer length that a file of at least eight bytes declares.
pub open spec fn declared_footer_length(file: Seq<u8>) -> int {
    little_endian(file.subrange(file.len() - 8, file.len() - 4))
}

/// What the frame of a file says: the length of its footer, or why the file
/// has no frame. The start magic is looked at first, then the end magic,
/// then whether the footer fits in the file.
pub open spec fn frame_of(file: Seq<u8>) -> Result<int, ParkhayError> {
    if file.len() < 4 {
        Err(ParkhayError::Io(IoFault::ShortRead))
    } else if file.subrange(0, 4) != magic() {
        Err(ParkhayError::Format(FormatFault::StartMagic))
    } else if file.len() < 8 {
        Err(ParkhayError::Io(IoFault::Seek))
    } else if file.subrange(file.len() - 4, file.len() as int) != magic() {
        Err(ParkhayError::Format(FormatFault::EndMagic))
    } else if declared_footer_length(file) + 8 > file.len() {
        Err(ParkhayError::Io(IoFault::Seek))
    } else {
        Ok(declared_footer_length(file))
    }
}

/// The bytes of the footer of a file that has a frame: those before the
/// footer length field, as many as the field says.
pub open spec fn footer_blob(file: Seq<u8>) -> Seq<u8> {
    file.subrange(file.len() - 8 - declared_footer_length(file), file.len() - 8)
}

/// Round trip of the magic: a file that has a frame starts and ends with
/// the magic; a file whose first four bytes are not the magic, or whose
/// last four are not, is no valid container.
pub proof fn lemma_frame_magic(file: Seq<u8>)
    ensures
        frame_of(file) is Ok ==> file.len() >= 8 && file.subrange(0, 4) == magic()
            && file.subrange(file.len() - 4, file.len() as int) == magic(),
        file.len() >= 4 && file.subrange(0, 4) != magic() ==> frame_of(file) == Err::<
            int,
            ParkhayError,
        >(ParkhayError::Format(FormatFault::StartMagic)),
        file.len() >= 8 && file.subrange(0, 4) == magic() && file.subrange(
            file.len() - 4,
            file.len() as int,
        ) != magic() ==> frame_of(file) == Err::<int, ParkhayError>(
            ParkhayError::Format(FormatFault::EndMagic),
        ),
{
}

/// Whether the four bytes from `at` on are the magic.
fn is_magic(file: &[u8], at: usize) -> (r: bool)
    requires
        at + 4 <= file@.len(),
    ensures
        r == (file@.subrange(at as int, at + 4) == magic()),
{
    let r = file[at] == 0x50 && file[at + 1] == 0x41 && file[at + 2] == 0x52 && file[at + 3]
        == 0x31;
    proof {
        let s = file@.subrange(at as int, at + 4);
        assert(s[0] == file@[at as int]);
        assert(s[1] == file@[at + 1]);
        assert(s[2] == file@[at + 2]);
        assert(s[3] == file@[at + 3]);
        if r {
            assert(s =~= magic());
        }
    }
    r
}

/// Reads the frame of a file: checks the magic at both ends and reads the
/// footer length between the footer and the end magic.
pub fn read_frame(file: &[u8]) -> (r: Result<u32, ParkhayError>)
    ensures
        match frame_of(file@) {
            Ok(length) => r is Ok && r->Ok_0 == length,
            Err(e) => r is Err && r->Err_0 == e,
        },
{
    let n = file.len();
    if n < 4 {
        return Err(ParkhayError::Io(IoFault::ShortRead));
    }
    if !is_magic(file, 0) {
        return Err(ParkhayError::Format(FormatFault::StartMagic));
    }
    if n < 8 {
        return Err(ParkhayError::Io(IoFault::Seek));
    }
    if !is_magic(file, n - 4) {
        return Err(ParkhayError::Format(FormatFault::EndMagic));
    }
    let ghost field = file@.subrange(n - 8, n - 4);
    assert(field[0] == file@[n - 8]);
    assert(field[1] == file@[n - 7]);
    assert(field[2] == file@[n - 6]);
    assert(field[3] == file@[n - 5]);
    let b0: u32 = file[n - 8] as u32;
    let b1: u32 = file[n - 7] as u32;
    let b2: u32 = file[n - 6] as u32;
    let b3: u32 = file[n - 5] as u32;
    let footer_length: u32 = b0 + 256 * b1 + 65536 * b2 + 16777216 * b3;
    if footer_length as u64 > (n - 8) as u64 {
        return Err(ParkhayError::Io(IoFault::Seek));
    }
    Ok(footer_length)
}

/// The bytes of the footer of a file: those before the footer length field,
/// as many as the field says. A file without a frame has none.
pub fn footer_bytes(file: &[u8]) -> (r: Result<&[u8], ParkhayError>)
    ensures
        match frame_of(file@) {
            Ok(length) => r is Ok && r->Ok_0@ == footer_blob(file@) && r->Ok_0@.len() == length,
            Err(e) => r is Err && r->Err_0 == e,
        },
{
    let footer_length = match read_frame(file) {
        Ok(length) => length,
        Err(e) => {
            return Err(e);
        },
    };
    let n = file.len();
    Ok(slice_subrange(file, n - 8 - footer_length as usize, n - 8))
}

/// The footer of a file: what its metadata record says of the file as a
/// whole, the schema as a tree, the metadata of the row groups, and the byte
/// ranges that they declare.
pub struct ParkhayFooter {
    pub version: i32,
    pub num_rows: i64,
    pub created_by: Option<String>,
    pub key_value_metadata: Option<Vec<KeyValue>>,
    pub schema_root: Field,
    pub column_orders: Option<Vec<parquet::format::ColumnOrder>>,
    pub row_groups: Vec<parquet::format::RowGroup>,
    /// The byte ranges that `row_groups` declare, one entry for each.
    pub layout: Vec<RowGroupLayout>,
}

/// `columns` are the byte ranges that the column chunks `chunks` hold, one
/// for each and in their order.
pub open spec fn declares_columns(
    chunks: Seq<parquet::format::ColumnChunk>,
    columns: Seq<ColumnChunkLayout>,
) -> bool {
    &&& columns.len() == chunks.len()
    &&& forall|j: int| 0 <= j < columns.len() ==> #[trigger] columns[j] == declared_ranges(chunks[j])
}

/// `layout` are the byte ranges that the row groups `row_groups` hold, one
/// entry for each and in their order.
pub open spec fn declares(
    row_groups: Seq<parquet::format::RowGroup>,
    layout: Seq<RowGroupLayout>,
) -> bool {
    &&& layout.len() == row_groups.len()
    &&& forall|i: int|
        0 <= i < layout.len() ==> {
            &&& (#[trigger] layout[i]).file_offset == declared_file_offset(row_groups[i])
            &&& declares_columns(declared_columns(row_groups[i]), layout[i].columns@)
        }
}

/// `footer` is made of the record `metadata`: its fields are those of the
/// record, and its layout holds the byte ranges that the row groups of the
/// record declare.
pub open spec fn made_of(footer: ParkhayFooter, metadata: parquet::format::FileMetaData) -> bool {
    let fields = record_fields(metadata);
    &&& footer.version == fields.version
    &&& footer.num_rows == fields.num_rows
    &&& footer.created_by == fields.created_by
    &&& footer.key_value_metadata == fields.key_value_metadata
    &&& footer.column_orders == fields.column_orders
    &&& footer.row_groups == fields.row_groups
    &&& declares(fields.row_groups@, footer.layout@)
}

/// The byte ranges that the column chunks of one row group declare.
fn columns_layout(columns: &Vec<parquet::format::ColumnChunk>) -> (r: Vec<ColumnChunkLayout>)
    ensures
        declares_columns(columns@, r@),
{
    let mut r: Vec<ColumnChunkLayout> = Vec::new();
    let mut k: usize = 0;
    while k < columns.len()
        invariant
            0 <= k <= columns@.len(),
            r@.len() == k,
            forall|j: int| 0 <= j < k ==> #[trigger] r@[j] == declared_ranges(columns@[j]),
        decreases columns@.len() - k,
    {
        r.push(column_chunk_layout(&columns[k]));
        k = k + 1;
    }
    r
}

/// The byte ranges that the row groups declare.
fn row_groups_layout(row_groups: &Vec<parquet::format::RowGroup>) -> (r: Vec<RowGroupLayout>)
    ensures
        declares(row_groups@, r@),
{
    let mut r: Vec<RowGroupLayout> = Vec::new();
    let mut k: usize = 0;
    while k < row_groups.len()
        invariant
            0 <= k <= row_groups@.len(),
            r@.len() == k,
            forall|i: int|
                0 <= i < k ==> {
                    &&& (#[trigger] r@[i]).file_offset == declared_file_offset(row_groups@[i])
                    &&& declares_columns(declared_columns(row_groups@[i]), r@[i].columns@)
                },
        decreases row_groups@.len() - k,
    {
        let row_group = &row_groups[k];
        r.push(
            RowGroupLayout {
                file_offset: row_group_file_offset(row_group),
                columns: columns_layout(row_group_columns(row_group)),
            },
        );
        k = k + 1;
    }
    r
}

impl ParkhayFooter {
    /// The schema in the message notation: what the printer of `parquet`
    /// writes for the schema tree.
    pub fn schema_message_string(&self) -> (r: String)
        ensures
            r@ == schema_message(*self.schema_root),
    {
        schema_text(&self.schema_root)
    }

    /// The footer of a decoded metadata record. It is there exactly where
    /// the schema of the record converts to a tree; its fields are those of
    /// the record, and its layout holds the byte ranges that the row groups
    /// of the record declare.
    pub fn try_from(file_metadata: parquet::format::FileMetaData) -> (r: Result<
        ParkhayFooter,
        ParkhayError,
    >)
        ensures
            r is Ok == schema_converts(file_metadata),
            r is Err ==> r->Err_0 == ParkhayError::Format(FormatFault::Schema),
            r is Ok ==> made_of(r->Ok_0, file_metadata),
    {
        let schema = schema_of(&file_metadata);
        let fields = footer_fields(file_metadata);
        let layout = row_groups_layout(&fields.row_groups);
        ParkhayFooter::from_parts(schema, fields, layout)
    }

    /// The footer made of the parts of a metadata record: the outcome of
    /// turning its schema into a tree, its other fields, and the byte
    /// ranges that its row groups declare. A schema that is no tree is the
    /// one failure; else each part stands in the footer as it was given.
    pub fn from_parts(
        schema: Result<Field, parquet::errors::ParquetError>,
        fields: FooterFields,
        layout: Vec<RowGroupLayout>,
    ) -> (r: Result<ParkhayFooter, ParkhayError>)
        ensures
            schema is Err ==> r is Err && r->Err_0 == ParkhayError::Format(FormatFault::Schema),
            schema is Ok ==> {
                &&& r is Ok
                &&& r->Ok_0.version == fields.version
                &&& r->Ok_0.num_rows == fields.num_rows
                &&& r->Ok_0.created_by == fields.created_by
                &&& r->Ok_0.key_value_metadata == fields.key_value_metadata
                &&& r->Ok_0.schema_root == schema->Ok_0
                &&& r->Ok_0.column_orders == fields.column_orders
                &&& r->Ok_0.row_groups == fields.row_groups
                &&& r->Ok_0.layout == layout
            },
    {
        match schema {
            Err(_) => Err(ParkhayError::Format(FormatFault::Schema)),
            Ok(schema_root) => Ok(
                ParkhayFooter {
                    version: fields.version,
                    num_rows: fields.num_rows,
                    created_by: fields.created_by,
                    key_value_metadata: fields.key_value_metadata,
                    schema_root,
                    column_orders: fields.column_orders,
                    row_groups: fields.row_groups,
                    layout,
                },
            ),
        }
    }

    /// The footer of what was decoded from the `blob_length` bytes of a
    /// footer: nothing, or a record and the number of bytes that it took.
    /// The record has to take every byte: where nothing was decoded, or the
    /// record ends before the bytes do, there is no footer. Else the footer
    /// is that of the record.
    pub fn from_decoded(blob_length: usize, decoded: Option<DecodedFooter>) -> (r: Result<
        ParkhayFooter,
        ParkhayError,
    >)
        ensures
            decoded is None || decoded->0.consumed != blob_length ==> r is Err && r->Err_0
                == ParkhayError::Format(FormatFault::Footer),
            decoded is Some && decoded->0.consumed == blob_length ==> {
                &&& r is Ok == schema_converts(decoded->0.raw)
                &&& r is Err ==> r->Err_0 == ParkhayError::Format(FormatFault::Schema)
                &&& r is Ok ==> made_of(r->Ok_0, decoded->0.raw)
            },
    {
        match decoded {
            None => Err(ParkhayError::Format(FormatFault::Footer)),
            Some(found) => {
                if found.consumed != blob_length as u64 {
                    return Err(ParkhayError::Format(FormatFault::Footer));
                }
                ParkhayFooter::try_from(found.raw)
            },
        }
    }
}

/// An open file: its frame, its footer and its layout.
pub struct ParkhayFile {
    pub path: String,
    pub start_magic: [u8; 4],
    pub footer_length: u32,
    pub data: ParkhayDataSection,
    pub footer: ParkhayFooter,
    pub end_magic: [u8; 4],
}

impl ParkhayFile {
    /// Opens the file at `path` that holds `file`, with the footer `footer`
    /// and the page headers `pages` decoded from it: checks the frame and
    /// indexes the row groups of the footer. A file with a frame whose
    /// footer declares a layout without fault opens, and no other. The tree
    /// is that layout: it keeps the invariants of a layout inside the file.
    pub fn new(path: &str, file: &[u8], footer: ParkhayFooter, pages: &[PageHeaderAt]) -> (r:
        Result<ParkhayFile, ParkhayError>)
        ensures
            match frame_of(file@) {
                Err(e) => r is Err && r->Err_0 == e,
                Ok(length) => match layout_of(file@.len() as int, pages@, footer.layout@) {
                    Err(e) => r is Err && r->Err_0 == ParkhayError::Format(e),
                    Ok(tree) => {
                        &&& r is Ok
                        &&& r->Ok_0.path@ == path@
                        &&& r->Ok_0.start_magic@ == magic()
                        &&& r->Ok_0.end_magic@ == magic()
                        &&& r->Ok_0.footer_length == length
                        &&& r->Ok_0.footer == footer
                        &&& r->Ok_0.data@ == tree
                        &&& tree.well_formed((0, (file@.len() - 1) as u64))
                        &&& tree.children.len() == footer.layout@.len()
                        &&& chunks_tiled(tree, (0, (file@.len() - 1) as u64))
                    },
                },
            },
    {
        let footer_length = match read_frame(file) {
            Ok(length) => length,
            Err(e) => {
                return Err(e);
            },
        };
        let n = file.len();
        let data = match ParkhayDataSection::new(footer.layout.as_slice(), n as u64, pages) {
            Ok(tree) => tree,
            Err(e) => {
                return Err(e);
            },
        };
        let start_magic: [u8; 4] = [file[0], file[1], file[2], file[3]];
        let end_magic: [u8; 4] = [file[n - 4], file[n - 3], file[n - 2], file[n - 1]];
        proof {
            assert(start_magic@ =~= file@.subrange(0, 4));
            assert(end_magic@ =~= file@.subrange(n - 4, n as int));
        }
        Ok(
            ParkhayFile {
                path: path.to_owned(),
                start_magic,
                footer_length,
                data,
                footer,
                end_magic,
            },
        )
    }
}

} // verus!
