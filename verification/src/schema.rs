//! Schemas: column types, their byte widths and layout, the per-type text
//! codec, and the row encoder used on insertion.

use vstd::prelude::*;
use crate::text::{str_eq, str_to_chars, string_from_utf8};
use crate::numtext::{
    bool_text, bool_string, dec_digits_of, int_text, match_bool_chars, parse_i32_chars,
    parse_i64_chars, parse_u32_chars, parse_u64_chars, parse_i32_text, parse_i64_text,
    parse_u32_text, parse_u64_text,
};
use crate::bytes::{
    encode_bool, encode_i32, encode_i64, encode_u32, encode_u64, spec_bool_to_byte,
    spec_i32_to_le_bytes, spec_i64_to_le_bytes, spec_i32_from_le_bytes, spec_i64_from_le_bytes,
};
use crate::uuidtext::{uuid_from_text, uuid_hyphenated, uuid_text_bytes, uuid_to_text};
use vstd::bytes::{
    spec_u32_from_le_bytes, spec_u32_to_le_bytes, spec_u64_from_le_bytes, spec_u64_to_le_bytes,
    u32_from_le_bytes, u64_from_le_bytes, lemma_auto_spec_u32_to_from_le_bytes,
    lemma_auto_spec_u64_to_from_le_bytes,
};
use vstd::utf8::{decode_utf8, encode_utf8, valid_utf8};
use vstd::string::StrSliceExecFns;
use vstd::string::StringSliceAdditionalSpecFns;

verus! {

/// The closed set of column types. `Byte(n)` is a fixed window of exactly
/// `n` bytes holding NUL-padded UTF-8 text.
#[derive(Debug, Clone, Copy, PartialEq, Eq, Structural)]
pub enum ColumnDataType {
    SerialId,
    Byte(usize),
    Boolean,
    Int32,
    UInt32,
    Int64,
    UInt64,
    UuidV4,
}

/// Errors raised while declaring a schema or encoding a textual value.
#[derive(Debug, Clone, PartialEq, Eq)]
pub enum SchemaError {
    DuplicateTable(String),
    DuplicateColumn(String),
    MissingSerialId,
    TableTooLarge,
    /// The caller may not supply a value for the serial-id column.
    SerialIdProvided,
    /// `OversizedByteValue(window, text_bytes)`: the text does not leave a
    /// trailing NUL in a `Byte(window)` column.
    OversizedByteValue(usize, usize),
    UnparseableValue(String),
}

/// Errors raised while decoding stored bytes back to text.
#[derive(Debug, Clone, Copy, PartialEq, Eq, Structural)]
pub enum CodecError {
    InsufficientBuffer(usize, usize),
    InvalidUtf8,
}

impl ColumnDataType {
    /// The byte width of a value of this type.
    pub open spec fn spec_size(self) -> nat {
        match self {
            ColumnDataType::SerialId => 8,
            ColumnDataType::Byte(n) => n as nat,
            ColumnDataType::Boolean => 1,
            ColumnDataType::Int32 => 4,
            ColumnDataType::UInt32 => 4,
            ColumnDataType::Int64 => 8,
            ColumnDataType::UInt64 => 8,
            ColumnDataType::UuidV4 => 16,
        }
    }

    pub fn size_in_bytes(&self) -> (n: usize)
        ensures
            n == self.spec_size(),
    {
        match self {
            ColumnDataType::SerialId => 8,
            ColumnDataType::Byte(n) => *n,
            ColumnDataType::Boolean => 1,
            ColumnDataType::Int32 => 4,
            ColumnDataType::UInt32 => 4,
            ColumnDataType::Int64 => 8,
            ColumnDataType::UInt64 => 8,
            ColumnDataType::UuidV4 => 16,
        }
    }
}

/// A declared column bound to its layout position.
#[derive(Debug, Clone)]
pub struct TableColumn {
    pub name: String,
    pub datatype: ColumnDataType,
    pub offset: usize,
}

pub struct TableColumnV {
    pub name: Seq<char>,
    pub datatype: ColumnDataType,
    pub offset: int,
}

impl View for TableColumn {
    type V = TableColumnV;

    open spec fn view(&self) -> TableColumnV {
        TableColumnV { name: self.name@, datatype: self.datatype, offset: self.offset as int }
    }
}

#[derive(Debug)]
pub struct TableDescriptor {
    pub table_name: String,
    pub columns: Vec<TableColumn>,
}

pub struct TableDescriptorV {
    pub table_name: Seq<char>,
    pub columns: Seq<TableColumnV>,
}

impl View for TableDescriptor {
    type V = TableDescriptorV;

    open spec fn view(&self) -> TableDescriptorV {
        TableDescriptorV {
            table_name: self.table_name@,
            columns: self.columns@.map_values(|c: TableColumn| c@),
        }
    }
}

#[derive(Debug)]
pub struct DatabaseDescriptor {
    pub db_name: String,
    pub tables: Vec<TableDescriptor>,
}

pub struct DatabaseDescriptorV {
    pub db_name: Seq<char>,
    pub tables: Seq<TableDescriptorV>,
}

impl View for DatabaseDescriptor {
    type V = DatabaseDescriptorV;

    open spec fn view(&self) -> DatabaseDescriptorV {
        DatabaseDescriptorV {
            db_name: self.db_name@,
            tables: self.tables@.map_values(|t: TableDescriptor| t@),
        }
    }
}

/// Total width of the first `k` columns.
pub open spec fn size_up_to(cols: Seq<TableColumnV>, k: int) -> int
    decreases k,
{
    if k <= 0 {
        0
    } else {
        size_up_to(cols, k - 1) + cols[k - 1].datatype.spec_size()
    }
}

/// Width of a full row.
pub open spec fn spec_row_size(t: TableDescriptorV) -> int {
    size_up_to(t.columns, t.columns.len() as int)
}

pub open spec fn serial_count(cols: Seq<TableColumnV>) -> int
    decreases cols.len(),
{
    if cols.len() == 0 {
        0
    } else {
        (if cols[0].datatype == ColumnDataType::SerialId {
            1int
        } else {
            0int
        }) + serial_count(cols.drop_first())
    }
}

/// First column of that name, if any.
pub open spec fn col_named(cols: Seq<TableColumnV>, name: Seq<char>) -> Option<int>
    decreases cols.len(),
{
    if cols.len() == 0 {
        None
    } else if cols[0].name == name {
        Some(0int)
    } else {
        match col_named(cols.drop_first(), name) {
            Some(i) => Some(i + 1),
            None => None,
        }
    }
}

/// First serial-id column, if any.
pub open spec fn serial_idx(cols: Seq<TableColumnV>) -> Option<int>
    decreases cols.len(),
{
    if cols.len() == 0 {
        None
    } else if cols[0].datatype == ColumnDataType::SerialId {
        Some(0int)
    } else {
        match serial_idx(cols.drop_first()) {
            Some(i) => Some(i + 1),
            None => None,
        }
    }
}

/// A well-formed table: offsets are the prefix sums of the declared widths,
/// the whole row fits a `usize`, exactly one column is the serial id, and
/// column names are unique.
pub open spec fn table_wf(t: TableDescriptorV) -> bool {
    &&& forall|i: int|
        0 <= i < t.columns.len() ==> (#[trigger] t.columns[i]).offset == size_up_to(t.columns, i)
    &&& spec_row_size(t) <= usize::MAX
    &&& serial_count(t.columns) == 1
    &&& forall|i: int, j: int|
        0 <= i < j < t.columns.len() ==> (#[trigger] t.columns[i]).name != (#[trigger] t.columns[j]).name
}

pub proof fn lemma_size_up_to_mono(cols: Seq<TableColumnV>, i: int, j: int)
    requires
        0 <= i <= j,
    ensures
        size_up_to(cols, i) <= size_up_to(cols, j),
    decreases j - i,
{
    if i < j {
        lemma_size_up_to_mono(cols, i, j - 1);
    }
}

pub proof fn lemma_size_up_to_nonneg(cols: Seq<TableColumnV>, k: int)
    ensures
        size_up_to(cols, k) >= 0,
{
    lemma_size_up_to_mono(cols, 0, if k >= 0 {
        k
    } else {
        0
    });
}

/// In a well-formed table every column window lies inside the row.
pub proof fn lemma_column_window_in_row(t: TableDescriptorV, i: int)
    requires
        table_wf(t),
        0 <= i < t.columns.len(),
    ensures
        0 <= t.columns[i].offset,
        t.columns[i].offset + t.columns[i].datatype.spec_size() <= spec_row_size(t),
    decreases t.columns.len() - i,
{
    lemma_size_up_to_nonneg(t.columns, i);
    assert(size_up_to(t.columns, i + 1) == t.columns[i].offset
        + t.columns[i].datatype.spec_size());
    lemma_size_up_to_mono(t.columns, i + 1, t.columns.len() as int);
}

proof fn lemma_col_named_hit(cols: Seq<TableColumnV>, name: Seq<char>, i: int)
    requires
        0 <= i < cols.len(),
        cols[i].name == name,
        forall|j: int| 0 <= j < i ==> (#[trigger] cols[j]).name != name,
    ensures
        col_named(cols, name) == Some(i),
    decreases cols.len(),
{
    if i == 0 {
    } else {
        assert(cols[0].name != name);
        let rest = cols.drop_first();
        assert(rest[i - 1].name == name);
        assert(forall|j: int| 0 <= j < i - 1 ==> (#[trigger] rest[j]).name != name) by {
            assert(forall|j: int| 0 <= j < i - 1 ==> rest[j] == #[trigger] cols[j + 1]);
        }
        lemma_col_named_hit(rest, name, i - 1);
    }
}

proof fn lemma_col_named_miss(cols: Seq<TableColumnV>, name: Seq<char>)
    requires
        forall|j: int| 0 <= j < cols.len() ==> (#[trigger] cols[j]).name != name,
    ensures
        col_named(cols, name) is None,
    decreases cols.len(),
{
    if cols.len() > 0 {
        let rest = cols.drop_first();
        assert(forall|j: int| 0 <= j < rest.len() ==> rest[j] == #[trigger] cols[j + 1]);
        lemma_col_named_miss(rest, name);
    }
}

proof fn lemma_serial_idx_hit(cols: Seq<TableColumnV>, i: int)
    requires
        0 <= i < cols.len(),
        cols[i].datatype == ColumnDataType::SerialId,
        forall|j: int|
            0 <= j < i ==> (#[trigger] cols[j]).datatype != ColumnDataType::SerialId,
    ensures
        serial_idx(cols) == Some(i),
    decreases cols.len(),
{
    if i == 0 {
    } else {
        let rest = cols.drop_first();
        assert(forall|j: int| 0 <= j < rest.len() ==> rest[j] == #[trigger] cols[j + 1]);
        lemma_serial_idx_hit(rest, i - 1);
    }
}

/// A well-formed table has a serial column.
pub proof fn lemma_wf_has_serial(t: TableDescriptorV)
    requires
        table_wf(t),
    ensures
        serial_idx(t.columns) matches Some(i) && 0 <= i < t.columns.len()
            && t.columns[i].datatype == ColumnDataType::SerialId,
{
    lemma_serial_count_pos(t.columns);
    lemma_serial_idx_in_range(t.columns);
}

proof fn lemma_serial_count_pos(cols: Seq<TableColumnV>)
    requires
        serial_count(cols) >= 1,
    ensures
        serial_idx(cols) is Some,
    decreases cols.len(),
{
    if cols.len() > 0 {
        if cols[0].datatype != ColumnDataType::SerialId {
            lemma_serial_count_pos(cols.drop_first());
        }
    } else {
        assert(serial_count(cols) == 0);
    }
}

proof fn lemma_serial_idx_in_range(cols: Seq<TableColumnV>)
    ensures
        serial_idx(cols) matches Some(i) ==> 0 <= i < cols.len() && cols[i].datatype
            == ColumnDataType::SerialId,
    decreases cols.len(),
{
    if cols.len() > 0 && cols[0].datatype != ColumnDataType::SerialId {
        lemma_serial_idx_in_range(cols.drop_first());
    }
}

impl TableDescriptor {
    /// Row width in bytes: the sum of the declared column widths.
    pub fn total_size(&self) -> (n: usize)
        requires
            table_wf(self@),
        ensures
            n == spec_row_size(self@),
    {
        let mut total: usize = 0;
        let mut i: usize = 0;
        let n = self.columns.len();
        proof {
            assert(self@.columns.len() == n);
        }
        while i < n
            invariant
                table_wf(self@),
                0 <= i <= n,
                n == self@.columns.len(),
                total == size_up_to(self@.columns, i as int),
            decreases n - i,
        {
            proof {
                assert(self@.columns[i as int] == self.columns@[i as int]@);
                lemma_size_up_to_mono(self@.columns, i as int + 1, n as int);
            }
            let sz = self.columns[i].datatype.size_in_bytes();
            total = total + sz;
            i = i + 1;
        }
        total
    }

    /// The serial-id column of a well-formed table.
    pub fn id_column(&self) -> (c: &TableColumn)
        requires
            table_wf(self@),
        ensures
            serial_idx(self@.columns) matches Some(i) && c@ == self@.columns[i],
            c@.datatype == ColumnDataType::SerialId,
    {
        proof {
            lemma_wf_has_serial(self@);
        }
        let n = self.columns.len();
        let mut i: usize = 0;
        while i < n
            invariant
                table_wf(self@),
                0 <= i <= n,
                n == self@.columns.len(),
                forall|j: int|
                    0 <= j < i ==> (#[trigger] self@.columns[j]).datatype
                        != ColumnDataType::SerialId,
            decreases n - i,
        {
            proof {
                assert(self@.columns[i as int] == self.columns@[i as int]@);
            }
            if self.columns[i].datatype == ColumnDataType::SerialId {
                proof {
                    lemma_serial_idx_hit(self@.columns, i as int);
                }
                return &self.columns[i];
            }
            i = i + 1;
        }
        proof {
            lemma_serial_count_zero(self@.columns);
            assert(false);
        }
        &self.columns[0]
    }

    /// The first column of that name, if any.
    pub fn column_for_name(&self, name: &str) -> (r: Option<&TableColumn>)
        ensures
            match col_named(self@.columns, name@) {
                Some(i) => r matches Some(c) && c@ == self@.columns[i],
                None => r is None,
            },
    {
        let n = self.columns.len();
        let mut i: usize = 0;
        while i < n
            invariant
                0 <= i <= n,
                n == self@.columns.len(),
                self@.columns == self.columns@.map_values(|c: TableColumn| c@),
                forall|j: int| 0 <= j < i ==> (#[trigger] self@.columns[j]).name != name@,
            decreases n - i,
        {
            proof {
                assert(self@.columns[i as int] == self.columns@[i as int]@);
            }
            if str_eq(self.columns[i].name.as_str(), name) {
                proof {
                    lemma_col_named_hit(self@.columns, name@, i as int);
                }
                return Some(&self.columns[i]);
            }
            i = i + 1;
        }
        proof {
            lemma_col_named_miss(self@.columns, name@);
        }
        None
    }
}

/// `k` zero bytes.
pub open spec fn zero_bytes(k: int) -> Seq<u8> {
    Seq::new(k as nat, |i: int| 0u8)
}

/// The bytes a textual value encodes to in a column of type `t`, or `None`
/// when the text is rejected. A serial id may never be supplied as text.
pub open spec fn column_value_bytes(t: ColumnDataType, s: Seq<char>) -> Option<Seq<u8>> {
    match t {
        ColumnDataType::SerialId => None,
        ColumnDataType::Boolean => if s == bool_text(true) {
            Some(seq![1u8])
        } else if s == bool_text(false) {
            Some(seq![0u8])
        } else {
            None
        },
        ColumnDataType::Int32 => match parse_i32_text(s) {
            Some(v) => Some(spec_i32_to_le_bytes(v)),
            None => None,
        },
        ColumnDataType::UInt32 => match parse_u32_text(s) {
            Some(v) => Some(spec_u32_to_le_bytes(v)),
            None => None,
        },
        ColumnDataType::Int64 => match parse_i64_text(s) {
            Some(v) => Some(spec_i64_to_le_bytes(v)),
            None => None,
        },
        ColumnDataType::UInt64 => match parse_u64_text(s) {
            Some(v) => Some(spec_u64_to_le_bytes(v)),
            None => None,
        },
        ColumnDataType::UuidV4 => match uuid_text_bytes(s) {
            Some(b) => if b.len() == 16 {
                Some(b)
            } else {
                None
            },
            None => None,
        },
        ColumnDataType::Byte(n) => {
            let bs = encode_utf8(s);
            if bs.len() < n {
                Some(bs + zero_bytes(n - bs.len()))
            } else {
                None
            }
        },
    }
}

/// Which error `parse_string` reports when the text is rejected.
pub open spec fn parse_err_matches(t: ColumnDataType, s: Seq<char>, e: SchemaError) -> bool {
    match t {
        ColumnDataType::SerialId => e == SchemaError::SerialIdProvided,
        ColumnDataType::Byte(n) => e matches SchemaError::OversizedByteValue(w, l) && w == n
            && l == encode_utf8(s).len(),
        _ => e matches SchemaError::UnparseableValue(txt) && txt@ == s,
    }
}

/// The stored bytes of a NUL-padded text window, up to the first NUL.
pub open spec fn prefix_to_nul(b: Seq<u8>) -> Seq<u8>
    decreases b.len(),
{
    if b.len() == 0 || b[0] == 0 {
        Seq::empty()
    } else {
        seq![b[0]] + prefix_to_nul(b.drop_first())
    }
}

/// The text a stored byte window of type `t` reads back as, or `None` when
/// the buffer is too short or (for `Byte`) not valid UTF-8.
pub open spec fn column_text_of_bytes(t: ColumnDataType, b: Seq<u8>) -> Option<Seq<char>> {
    match t {
        ColumnDataType::SerialId => if b.len() >= 8 {
            Some(dec_digits_of(spec_u64_from_le_bytes(b.take(8)) as int))
        } else {
            None
        },
        ColumnDataType::UInt64 => if b.len() >= 8 {
            Some(dec_digits_of(spec_u64_from_le_bytes(b.take(8)) as int))
        } else {
            None
        },
        ColumnDataType::Int64 => if b.len() >= 8 {
            Some(int_text(spec_i64_from_le_bytes(b.take(8)) as int))
        } else {
            None
        },
        ColumnDataType::UInt32 => if b.len() >= 4 {
            Some(dec_digits_of(spec_u32_from_le_bytes(b.take(4)) as int))
        } else {
            None
        },
        ColumnDataType::Int32 => if b.len() >= 4 {
            Some(int_text(spec_i32_from_le_bytes(b.take(4)) as int))
        } else {
            None
        },
        ColumnDataType::Boolean => if b.len() >= 1 {
            Some(bool_text(b[0] != 0))
        } else {
            None
        },
        ColumnDataType::UuidV4 => if b.len() >= 16 {
            Some(uuid_hyphenated(b.take(16)))
        } else {
            None
        },
        ColumnDataType::Byte(n) => if b.len() >= n {
            let w = prefix_to_nul(b.take(n as int));
            if valid_utf8(w) {
                Some(decode_utf8(w))
            } else {
                None
            }
        } else {
            None
        },
    }
}

/// Which error `parse_bytes` reports when the bytes are rejected.
pub open spec fn codec_err_matches(t: ColumnDataType, b: Seq<u8>, e: CodecError) -> bool {
    if b.len() < t.spec_size() {
        e == CodecError::InsufficientBuffer(t.spec_size() as usize, b.len() as usize)
    } else {
        e == CodecError::InvalidUtf8
    }
}

/// An accepted value's bytes exactly fill the column window.
pub proof fn lemma_column_value_len(t: ColumnDataType, s: Seq<char>)
    ensures
        column_value_bytes(t, s) matches Some(b) ==> b.len() == t.spec_size(),
{
    lemma_auto_spec_u32_to_from_le_bytes();
    lemma_auto_spec_u64_to_from_le_bytes();
}

/// When a window holds text bytes followed by at least one NUL, the prefix
/// up to the first NUL is exactly those text bytes.
pub proof fn lemma_prefix_to_nul_window(b: Seq<u8>, k: int)
    requires
        0 <= k <= b.len(),
        forall|j: int| 0 <= j < k ==> b[j] != 0,
        k < b.len() ==> b[k] == 0,
    ensures
        prefix_to_nul(b) == b.take(k),
    decreases b.len(),
{
    if b.len() == 0 {
        assert(prefix_to_nul(b) =~= b.take(k));
    } else if b[0] == 0 {
        assert(k == 0);
        assert(prefix_to_nul(b) =~= b.take(0));
    } else {
        assert(k >= 1);
        let rest = b.drop_first();
        assert(forall|j: int| 0 <= j < k - 1 ==> rest[j] == #[trigger] b[j + 1]);
        lemma_prefix_to_nul_window(rest, k - 1);
        assert(seq![b[0]] + rest.take(k - 1) =~= b.take(k));
    }
}

/// A text that a column accepts and that is in canonical form: parsing its
/// encoded bytes yields the text itself again.
pub open spec fn canonical_text(t: ColumnDataType, s: Seq<char>) -> bool {
    match t {
        ColumnDataType::SerialId => false,
        ColumnDataType::Boolean => s == bool_text(true) || s == bool_text(false),
        ColumnDataType::Int32 => parse_i32_text(s) matches Some(v) && s == int_text(v as int),
        ColumnDataType::UInt32 => parse_u32_text(s) matches Some(v) && s == dec_digits_of(
            v as int,
        ),
        ColumnDataType::Int64 => parse_i64_text(s) matches Some(v) && s == int_text(v as int),
        ColumnDataType::UInt64 => parse_u64_text(s) matches Some(v) && s == dec_digits_of(
            v as int,
        ),
        ColumnDataType::UuidV4 => uuid_text_bytes(s) matches Some(b) && b.len() == 16 && s
            == uuid_hyphenated(b),
        ColumnDataType::Byte(n) => encode_utf8(s).len() < n && (forall|j: int|
            0 <= j < encode_utf8(s).len() ==> encode_utf8(s)[j] != 0),
    }
}

/// Encoding a canonical text and reading the bytes back yields the text:
/// the value-level round trip behind row insertion and scanning.
pub proof fn lemma_value_round_trip(t: ColumnDataType, s: Seq<char>)
    requires
        canonical_text(t, s),
    ensures
        column_value_bytes(t, s) matches Some(b) && column_text_of_bytes(t, b) == Some(s),
{
    lemma_auto_spec_u32_to_from_le_bytes();
    lemma_auto_spec_u64_to_from_le_bytes();
    match t {
        ColumnDataType::SerialId => {
        },
        ColumnDataType::Boolean => {
            if s == bool_text(true) {
                let b = seq![1u8];
                assert(b.len() == 1 && b[0] != 0);
            } else {
                let b = seq![0u8];
                assert(b.len() == 1 && b[0] == 0);
            }
        },
        ColumnDataType::Int32 => {
            let v = parse_i32_text(s)->Some_0;
            let b = spec_i32_to_le_bytes(v);
            assert(b.take(4) =~= b);
            crate::bytes::lemma_i32_round_trip(v);
        },
        ColumnDataType::UInt32 => {
            let v = parse_u32_text(s)->Some_0;
            let b = spec_u32_to_le_bytes(v);
            assert(b.take(4) =~= b);
        },
        ColumnDataType::Int64 => {
            let v = parse_i64_text(s)->Some_0;
            let b = spec_i64_to_le_bytes(v);
            assert(b.take(8) =~= b);
            crate::bytes::lemma_i64_round_trip(v);
        },
        ColumnDataType::UInt64 => {
            let v = parse_u64_text(s)->Some_0;
            let b = spec_u64_to_le_bytes(v);
            assert(b.take(8) =~= b);
        },
        ColumnDataType::UuidV4 => {
            let b = uuid_text_bytes(s)->Some_0;
            assert(b.take(16) =~= b);
        },
        ColumnDataType::Byte(n) => {
            let bs = encode_utf8(s);
            let b = bs + zero_bytes(n - bs.len());
            assert(b.len() == n);
            assert(b.take(n as int) =~= b);
            assert(forall|j: int| 0 <= j < bs.len() ==> b[j] == #[trigger] bs[j]);
            assert(b[bs.len() as int] == 0);
            lemma_prefix_to_nul_window(b, bs.len() as int);
            assert(b.take(bs.len() as int) =~= bs);
            vstd::utf8::encode_utf8_valid_utf8(s);
            vstd::utf8::encode_utf8_decode_utf8(s);
        },
    }
}

impl ColumnDataType {
    /// Encode a textual value for this column type, or say exactly why not.
    pub fn parse_string(&self, s: &str) -> (r: Result<Vec<u8>, SchemaError>)
        ensures
            match column_value_bytes(*self, s@) {
                Some(b) => r matches Ok(v) && v@ == b,
                None => r matches Err(e) && parse_err_matches(*self, s@, e),
            },
    {
        match self {
            ColumnDataType::SerialId => Err(SchemaError::SerialIdProvided),
            ColumnDataType::Boolean => {
                let cs = str_to_chars(s);
                match match_bool_chars(cs.as_slice()) {
                    Some(true) => Ok(encode_bool(true)),
                    Some(false) => Ok(encode_bool(false)),
                    None => Err(SchemaError::UnparseableValue(s.to_owned())),
                }
            },
            ColumnDataType::Int32 => {
                let cs = str_to_chars(s);
                match parse_i32_chars(cs.as_slice()) {
                    Some(v) => Ok(encode_i32(v)),
                    None => Err(SchemaError::UnparseableValue(s.to_owned())),
                }
            },
            ColumnDataType::UInt32 => {
                let cs = str_to_chars(s);
                match parse_u32_chars(cs.as_slice()) {
                    Some(v) => Ok(encode_u32(v)),
                    None => Err(SchemaError::UnparseableValue(s.to_owned())),
                }
            },
            ColumnDataType::Int64 => {
                let cs = str_to_chars(s);
                match parse_i64_chars(cs.as_slice()) {
                    Some(v) => Ok(encode_i64(v)),
                    None => Err(SchemaError::UnparseableValue(s.to_owned())),
                }
            },
            ColumnDataType::UInt64 => {
                let cs = str_to_chars(s);
                match parse_u64_chars(cs.as_slice()) {
                    Some(v) => Ok(encode_u64(v)),
                    None => Err(SchemaError::UnparseableValue(s.to_owned())),
                }
            },
            ColumnDataType::UuidV4 => {
                match uuid_from_text(s) {
                    Some(v) => Ok(v),
                    None => Err(SchemaError::UnparseableValue(s.to_owned())),
                }
            },
            ColumnDataType::Byte(n) => {
                let mut bv = s.as_bytes_vec();
                if bv.len() >= *n {
                    Err(SchemaError::OversizedByteValue(*n, bv.len()))
                } else {
                    let ghost bs = encode_utf8(s@);
                    while bv.len() < *n
                        invariant
                            bs.len() < *n,
                            bs.len() <= bv@.len() <= *n,
                            bv@ == bs + zero_bytes(bv@.len() - bs.len()),
                        decreases n - bv.len(),
                    {
                        bv.push(0u8);
                        assert(bv@ =~= bs + zero_bytes(bv@.len() - bs.len()));
                    }
                    assert(bv@ =~= bs + zero_bytes(n - bs.len()));
                    Ok(bv)
                }
            },
        }
    }

    /// Decode a stored byte window of this column type back to text, or say
    /// exactly why not.
    pub fn parse_bytes(&self, bytes: &[u8]) -> (r: Result<String, CodecError>)
        ensures
            match column_text_of_bytes(*self, bytes@) {
                Some(txt) => r matches Ok(out) && out@ == txt,
                None => r matches Err(e) && codec_err_matches(*self, bytes@, e),
            },
    {
        match self {
            ColumnDataType::SerialId => parse_u64_window(bytes),
            ColumnDataType::UInt64 => parse_u64_window(bytes),
            ColumnDataType::Int64 => {
                if bytes.len() < 8 {
                    Err(CodecError::InsufficientBuffer(8, bytes.len()))
                } else {
                    let w: &[u8] = &bytes[0..8];
                    assert(w@ =~= bytes@.take(8));
                    let v = u64_from_le_bytes(w) as i64;
                    Ok(crate::numtext::i64_dec_string(v))
                }
            },
            ColumnDataType::UInt32 => {
                if bytes.len() < 4 {
                    Err(CodecError::InsufficientBuffer(4, bytes.len()))
                } else {
                    let w: &[u8] = &bytes[0..4];
                    assert(w@ =~= bytes@.take(4));
                    let v = u32_from_le_bytes(w);
                    Ok(crate::numtext::u64_dec_string(v as u64))
                }
            },
            ColumnDataType::Int32 => {
                if bytes.len() < 4 {
                    Err(CodecError::InsufficientBuffer(4, bytes.len()))
                } else {
                    let w: &[u8] = &bytes[0..4];
                    assert(w@ =~= bytes@.take(4));
                    let v = u32_from_le_bytes(w) as i32;
                    Ok(crate::numtext::i32_dec_string(v))
                }
            },
            ColumnDataType::Boolean => {
                if bytes.len() < 1 {
                    Err(CodecError::InsufficientBuffer(1, bytes.len()))
                } else {
                    Ok(bool_string(bytes[0] != 0))
                }
            },
            ColumnDataType::UuidV4 => {
                if bytes.len() < 16 {
                    Err(CodecError::InsufficientBuffer(16, bytes.len()))
                } else {
                    let w: &[u8] = &bytes[0..16];
                    assert(w@ =~= bytes@.take(16));
                    Ok(uuid_to_text(w))
                }
            },
            ColumnDataType::Byte(n) => {
                if bytes.len() < *n {
                    Err(CodecError::InsufficientBuffer(*n, bytes.len()))
                } else {
                    let mut k: usize = 0;
                    while k < *n && bytes[k] != 0
                        invariant
                            0 <= k <= *n,
                            *n <= bytes@.len(),
                            forall|j: int| 0 <= j < k ==> bytes@[j] != 0,
                        decreases n - k,
                    {
                        k = k + 1;
                    }
                    proof {
                        let win = bytes@.take(*n as int);
                        assert(forall|j: int| 0 <= j < k ==> win[j] == #[trigger] bytes@[j]);
                        lemma_prefix_to_nul_window(win, k as int);
                        assert(win.take(k as int) =~= bytes@.take(k as int));
                    }
                    let w: &[u8] = &bytes[0..k];
                    assert(w@ =~= bytes@.take(k as int));
                    match string_from_utf8(w) {
                        Some(out) => Ok(out),
                        None => Err(CodecError::InvalidUtf8),
                    }
                }
            },
        }
    }
}

/// Decode an eight-byte window as an unsigned decimal text.
fn parse_u64_window(bytes: &[u8]) -> (r: Result<String, CodecError>)
    ensures
        bytes@.len() >= 8 ==> (r matches Ok(out) && out@ == dec_digits_of(
            spec_u64_from_le_bytes(bytes@.take(8)) as int,
        )),
        bytes@.len() < 8 ==> r == Result::<String, CodecError>::Err(
            CodecError::InsufficientBuffer(8, bytes@.len() as usize),
        ),
{
    if bytes.len() < 8 {
        Err(CodecError::InsufficientBuffer(8, bytes.len()))
    } else {
        let w: &[u8] = &bytes[0..8];
        assert(w@ =~= bytes@.take(8));
        let v = u64_from_le_bytes(w);
        Ok(crate::numtext::u64_dec_string(v))
    }
}

proof fn lemma_serial_count_zero(cols: Seq<TableColumnV>)
    requires
        forall|j: int|
            0 <= j < cols.len() ==> (#[trigger] cols[j]).datatype != ColumnDataType::SerialId,
    ensures
        serial_count(cols) == 0,
    decreases cols.len(),
{
    if cols.len() > 0 {
        let rest = cols.drop_first();
        assert(forall|j: int| 0 <= j < rest.len() ==> rest[j] == #[trigger] cols[j + 1]);
        lemma_serial_count_zero(rest);
    }
}

/// The character-level form of the supplied `(name, value)` pairs.
pub open spec fn pairs_view(s: Seq<(&str, &str)>) -> Seq<(Seq<char>, Seq<char>)> {
    s.map_values(|p: (&str, &str)| (p.0@, p.1@))
}

/// The value supplied for a column name: first match wins.
pub open spec fn lookup_value(vals: Seq<(Seq<char>, Seq<char>)>, name: Seq<char>) -> Option<
    Seq<char>,
>
    decreases vals.len(),
{
    if vals.len() == 0 {
        None
    } else if vals[0].0 == name {
        Some(vals[0].1)
    } else {
        lookup_value(vals.drop_first(), name)
    }
}

/// The bytes one column contributes to an inserted row: the id for the
/// serial column, the encoded supplied value, or a zero fill.
pub open spec fn cell_bytes(col: TableColumnV, id: u64, vals: Seq<(Seq<char>, Seq<char>)>) -> Option<
    Seq<u8>,
> {
    if col.datatype == ColumnDataType::SerialId {
        Some(spec_u64_to_le_bytes(id))
    } else {
        match lookup_value(vals, col.name) {
            Some(txt) => column_value_bytes(col.datatype, txt),
            None => Some(zero_bytes(col.datatype.spec_size() as int)),
        }
    }
}

/// A whole inserted row: the cells in declaration order, or the index of the
/// first column whose supplied value is rejected.
pub open spec fn row_bytes(cols: Seq<TableColumnV>, id: u64, vals: Seq<(Seq<char>, Seq<char>)>) -> Result<
    Seq<u8>,
    int,
>
    decreases cols.len(),
{
    if cols.len() == 0 {
        Ok(Seq::empty())
    } else {
        match cell_bytes(cols[0], id, vals) {
            None => Err(0int),
            Some(b) => match row_bytes(cols.drop_first(), id, vals) {
                Ok(rest) => Ok(b + rest),
                Err(i) => Err(i + 1),
            },
        }
    }
}

/// Concatenation of the first `k` cells, when all of them encode.
pub open spec fn cells_concat(
    cols: Seq<TableColumnV>,
    id: u64,
    vals: Seq<(Seq<char>, Seq<char>)>,
    k: int,
) -> Seq<u8>
    decreases k,
{
    if k <= 0 {
        Seq::empty()
    } else {
        cells_concat(cols, id, vals, k - 1) + cell_bytes(cols[k - 1], id, vals)->Some_0
    }
}

proof fn lemma_cells_concat_shift(
    cols: Seq<TableColumnV>,
    id: u64,
    vals: Seq<(Seq<char>, Seq<char>)>,
    k: int,
)
    requires
        1 <= k <= cols.len(),
    ensures
        cells_concat(cols, id, vals, k) == cell_bytes(cols[0], id, vals)->Some_0 + cells_concat(
            cols.drop_first(),
            id,
            vals,
            k - 1,
        ),
    decreases k,
{
    let rest = cols.drop_first();
    if k == 1 {
        assert(cells_concat(cols, id, vals, 0) =~= Seq::<u8>::empty());
        assert(cells_concat(rest, id, vals, 0) =~= Seq::<u8>::empty());
        assert(cells_concat(cols, id, vals, 1) =~= cell_bytes(cols[0], id, vals)->Some_0
            + cells_concat(rest, id, vals, 0));
    } else {
        lemma_cells_concat_shift(cols, id, vals, k - 1);
        assert(rest[k - 2] == cols[k - 1]);
        assert(cells_concat(cols, id, vals, k) =~= cell_bytes(cols[0], id, vals)->Some_0
            + cells_concat(rest, id, vals, k - 1));
    }
}

pub proof fn lemma_row_bytes_all_ok(
    cols: Seq<TableColumnV>,
    id: u64,
    vals: Seq<(Seq<char>, Seq<char>)>,
)
    requires
        forall|j: int| 0 <= j < cols.len() ==> cell_bytes(#[trigger] cols[j], id, vals) is Some,
    ensures
        row_bytes(cols, id, vals) == Ok::<Seq<u8>, int>(
            cells_concat(cols, id, vals, cols.len() as int),
        ),
    decreases cols.len(),
{
    if cols.len() > 0 {
        let rest = cols.drop_first();
        assert(forall|j: int| 0 <= j < rest.len() ==> rest[j] == #[trigger] cols[j + 1]);
        lemma_row_bytes_all_ok(rest, id, vals);
        lemma_cells_concat_shift(cols, id, vals, cols.len() as int);
    }
}

pub proof fn lemma_row_bytes_first_fail(
    cols: Seq<TableColumnV>,
    id: u64,
    vals: Seq<(Seq<char>, Seq<char>)>,
    i: int,
)
    requires
        0 <= i < cols.len(),
        forall|j: int| 0 <= j < i ==> cell_bytes(#[trigger] cols[j], id, vals) is Some,
        cell_bytes(cols[i], id, vals) is None,
    ensures
        row_bytes(cols, id, vals) == Err::<Seq<u8>, int>(i),
    decreases cols.len(),
{
    if i > 0 {
        let rest = cols.drop_first();
        assert(forall|j: int| 0 <= j < rest.len() ==> rest[j] == #[trigger] cols[j + 1]);
        lemma_row_bytes_first_fail(rest, id, vals, i - 1);
    }
}

/// An accepted cell exactly fills its column's window.
pub proof fn lemma_cell_len(col: TableColumnV, id: u64, vals: Seq<(Seq<char>, Seq<char>)>)
    ensures
        cell_bytes(col, id, vals) matches Some(b) ==> b.len() == col.datatype.spec_size(),
{
    lemma_auto_spec_u64_to_from_le_bytes();
    if col.datatype != ColumnDataType::SerialId {
        match lookup_value(vals, col.name) {
            Some(txt) => {
                lemma_column_value_len(col.datatype, txt);
            },
            None => {
            },
        }
    }
}

/// An accepted row is exactly `row_size` bytes.
pub proof fn lemma_cells_concat_len(
    cols: Seq<TableColumnV>,
    id: u64,
    vals: Seq<(Seq<char>, Seq<char>)>,
    k: int,
)
    requires
        0 <= k <= cols.len(),
        forall|j: int| 0 <= j < k ==> cell_bytes(#[trigger] cols[j], id, vals) is Some,
    ensures
        cells_concat(cols, id, vals, k).len() == size_up_to(cols, k),
    decreases k,
{
    if k > 0 {
        lemma_cells_concat_len(cols, id, vals, k - 1);
        lemma_cell_len(cols[k - 1], id, vals);
        lemma_size_up_to_nonneg(cols, k - 1);
    }
}

proof fn lemma_lookup_hit(vals: Seq<(Seq<char>, Seq<char>)>, name: Seq<char>, i: int)
    requires
        0 <= i < vals.len(),
        vals[i].0 == name,
        forall|j: int| 0 <= j < i ==> (#[trigger] vals[j]).0 != name,
    ensures
        lookup_value(vals, name) == Some(vals[i].1),
    decreases vals.len(),
{
    if i > 0 {
        let rest = vals.drop_first();
        assert(forall|j: int| 0 <= j < rest.len() ==> rest[j] == #[trigger] vals[j + 1]);
        lemma_lookup_hit(rest, name, i - 1);
    }
}

proof fn lemma_lookup_miss(vals: Seq<(Seq<char>, Seq<char>)>, name: Seq<char>)
    requires
        forall|j: int| 0 <= j < vals.len() ==> (#[trigger] vals[j]).0 != name,
    ensures
        lookup_value(vals, name) is None,
    decreases vals.len(),
{
    if vals.len() > 0 {
        let rest = vals.drop_first();
        assert(forall|j: int| 0 <= j < rest.len() ==> rest[j] == #[trigger] vals[j + 1]);
        lemma_lookup_miss(rest, name);
    }
}

/// The value supplied for `name`, if any: first match wins.
fn find_value<'a>(columns: &[(&'a str, &'a str)], name: &str) -> (r: Option<&'a str>)
    ensures
        match lookup_value(pairs_view(columns@), name@) {
            Some(t) => r matches Some(v) && v@ == t,
            None => r is None,
        },
{
    let ghost vals = pairs_view(columns@);
    let n = columns.len();
    let mut i: usize = 0;
    while i < n
        invariant
            0 <= i <= n,
            n == columns@.len(),
            vals == pairs_view(columns@),
            forall|j: int| 0 <= j < i ==> (#[trigger] vals[j]).0 != name@,
        decreases n - i,
    {
        proof {
            assert(vals[i as int] == (columns@[i as int].0@, columns@[i as int].1@));
        }
        let pair = &columns[i];
        if str_eq(pair.0, name) {
            proof {
                lemma_lookup_hit(vals, name@, i as int);
            }
            return Some(pair.1);
        }
        i = i + 1;
    }
    proof {
        lemma_lookup_miss(vals, name@);
    }
    None
}

impl TableDescriptor {
    /// Encode one row: the given id in the serial column, each supplied value
    /// in its column, zero fill elsewhere. Unknown names in `columns` are
    /// ignored; the first value for a rejected column decides the error.
    pub fn get_insertion_bytes(&self, id: u64, columns: &[(&str, &str)]) -> (r: Result<
        Vec<u8>,
        SchemaError,
    >)
        ensures
            match row_bytes(self@.columns, id, pairs_view(columns@)) {
                Ok(b) => r matches Ok(v) && v@ == b,
                Err(i) => r matches Err(e) && parse_err_matches(
                    self@.columns[i].datatype,
                    lookup_value(pairs_view(columns@), self@.columns[i].name)->Some_0,
                    e,
                ),
            },
    {
        let ghost cols = self@.columns;
        let ghost vals = pairs_view(columns@);
        let n = self.columns.len();
        let mut out: Vec<u8> = Vec::new();
        let mut i: usize = 0;
        while i < n
            invariant
                0 <= i <= n,
                n == cols.len(),
                cols == self@.columns,
                vals == pairs_view(columns@),
                self@.columns == self.columns@.map_values(|c: TableColumn| c@),
                forall|j: int| 0 <= j < i ==> cell_bytes(#[trigger] cols[j], id, vals) is Some,
                out@ == cells_concat(cols, id, vals, i as int),
            decreases n - i,
        {
            proof {
                assert(cols[i as int] == self.columns@[i as int]@);
            }
            let col = &self.columns[i];
            if col.datatype == ColumnDataType::SerialId {
                let mut eb = encode_u64(id);
                out.append(&mut eb);
            } else {
                match find_value(columns, col.name.as_str()) {
                    Some(txt) => {
                        match col.datatype.parse_string(txt) {
                            Ok(mut b) => {
                                out.append(&mut b);
                            },
                            Err(e) => {
                                proof {
                                    lemma_row_bytes_first_fail(cols, id, vals, i as int);
                                }
                                return Err(e);
                            },
                        }
                    },
                    None => {
                        let sz = col.datatype.size_in_bytes();
                        let ghost before = out@;
                        let mut j: usize = 0;
                        while j < sz
                            invariant
                                0 <= j <= sz,
                                out@ == before + zero_bytes(j as int),
                            decreases sz - j,
                        {
                            out.push(0u8);
                            assert(out@ =~= before + zero_bytes(j as int + 1));
                            j = j + 1;
                        }
                    },
                }
            }
            proof {
                assert(cell_bytes(cols[i as int], id, vals) is Some);
                assert(out@ =~= cells_concat(cols, id, vals, i as int + 1));
            }
            i = i + 1;
        }
        proof {
            lemma_row_bytes_all_ok(cols, id, vals);
        }
        Ok(out)
    }
}

/// An encoded row is exactly the concatenation of its accepted cells.
pub proof fn lemma_row_bytes_ok_cells(
    cols: Seq<TableColumnV>,
    id: u64,
    vals: Seq<(Seq<char>, Seq<char>)>,
)
    ensures
        row_bytes(cols, id, vals) matches Ok(b) ==> (forall|j: int|
            0 <= j < cols.len() ==> cell_bytes(#[trigger] cols[j], id, vals) is Some) && b
            == cells_concat(cols, id, vals, cols.len() as int) && b.len() == size_up_to(
            cols,
            cols.len() as int,
        ),
    decreases cols.len(),
{
    if cols.len() > 0 {
        let rest = cols.drop_first();
        lemma_row_bytes_ok_cells(rest, id, vals);
        match row_bytes(cols, id, vals) {
            Ok(b) => {
                assert(cell_bytes(cols[0], id, vals) is Some) by {
                    if cell_bytes(cols[0], id, vals) is None {
                        assert(row_bytes(cols, id, vals) == Err::<Seq<u8>, int>(0));
                    }
                }
                assert(row_bytes(rest, id, vals) is Ok) by {
                    if row_bytes(rest, id, vals) is Err {
                        assert(row_bytes(cols, id, vals) is Err);
                    }
                }
                assert forall|j: int|
                    0 <= j < cols.len() implies cell_bytes(#[trigger] cols[j], id, vals) is Some by {
                    if j > 0 {
                        assert(cols[j] == rest[j - 1]);
                        assert(cell_bytes(rest[j - 1], id, vals) is Some);
                    }
                }
                lemma_row_bytes_all_ok(cols, id, vals);
                lemma_cells_concat_len(cols, id, vals, cols.len() as int);
            },
            Err(_) => {
            },
        }
    } else {
        if row_bytes(cols, id, vals) is Ok {
            assert(cells_concat(cols, id, vals, 0) =~= Seq::<u8>::empty());
        }
    }
}

/// The window of column `i` inside the concatenation of the first `k`
/// cells is exactly cell `i`.
pub proof fn lemma_cells_concat_window(
    cols: Seq<TableColumnV>,
    id: u64,
    vals: Seq<(Seq<char>, Seq<char>)>,
    k: int,
    i: int,
)
    requires
        0 <= i < k <= cols.len(),
        forall|j: int| 0 <= j < k ==> cell_bytes(#[trigger] cols[j], id, vals) is Some,
    ensures
        cells_concat(cols, id, vals, k).subrange(
            size_up_to(cols, i),
            size_up_to(cols, i) + cols[i].datatype.spec_size(),
        ) == cell_bytes(cols[i], id, vals)->Some_0,
    decreases k,
{
    lemma_cells_concat_len(cols, id, vals, k);
    lemma_cells_concat_len(cols, id, vals, k - 1);
    lemma_cell_len(cols[k - 1], id, vals);
    let whole = cells_concat(cols, id, vals, k);
    let pre = cells_concat(cols, id, vals, k - 1);
    let last = cell_bytes(cols[k - 1], id, vals)->Some_0;
    lemma_size_up_to_nonneg(cols, i);
    if i == k - 1 {
        assert(whole.subrange(
            size_up_to(cols, i),
            size_up_to(cols, i) + cols[i].datatype.spec_size(),
        ) =~= last);
    } else {
        lemma_cells_concat_window(cols, id, vals, k - 1, i);
        lemma_size_up_to_mono(cols, i + 1, k - 1);
        assert(size_up_to(cols, i + 1) == size_up_to(cols, i) + cols[i].datatype.spec_size());
        assert(whole.subrange(
            size_up_to(cols, i),
            size_up_to(cols, i) + cols[i].datatype.spec_size(),
        ) =~= pre.subrange(
            size_up_to(cols, i),
            size_up_to(cols, i) + cols[i].datatype.spec_size(),
        ));
    }
}

/// Whether a row encodes, and which column fails, does not depend on the id:
/// only the serial column reads it, and that cell always encodes.
pub proof fn lemma_row_bytes_err_id_independent(
    cols: Seq<TableColumnV>,
    vals: Seq<(Seq<char>, Seq<char>)>,
)
    ensures
        forall|a: u64, b: u64|
            (#[trigger] row_bytes(cols, a, vals)) is Err ==> (#[trigger] row_bytes(
                cols,
                b,
                vals,
            )) is Err && row_bytes(cols, a, vals)->Err_0 == row_bytes(cols, b, vals)->Err_0,
    decreases cols.len(),
{
    if cols.len() > 0 {
        let rest = cols.drop_first();
        lemma_row_bytes_err_id_independent(rest, vals);
        assert forall|a: u64, b: u64| (#[trigger] row_bytes(cols, a, vals)) is Err implies (
        #[trigger] row_bytes(cols, b, vals)) is Err && row_bytes(cols, a, vals)->Err_0
            == row_bytes(cols, b, vals)->Err_0 by {
            assert(cell_bytes(cols[0], a, vals) is Some <==> cell_bytes(cols[0], b, vals)
                is Some);
            if cell_bytes(cols[0], a, vals) is Some {
                assert(row_bytes(rest, a, vals) is Err);
                assert(row_bytes(rest, b, vals) is Err && row_bytes(rest, a, vals)->Err_0
                    == row_bytes(rest, b, vals)->Err_0);
            }
        }
    }
}

/// A failing column index lies inside the column list.
pub proof fn lemma_row_bytes_err_range(
    cols: Seq<TableColumnV>,
    id: u64,
    vals: Seq<(Seq<char>, Seq<char>)>,
)
    ensures
        row_bytes(cols, id, vals) matches Err(i) ==> 0 <= i < cols.len(),
    decreases cols.len(),
{
    if cols.len() > 0 {
        let rest = cols.drop_first();
        lemma_row_bytes_err_range(rest, id, vals);
        if row_bytes(cols, id, vals) is Err && cell_bytes(cols[0], id, vals) is Some {
            assert(row_bytes(rest, id, vals) is Err);
        }
    }
}

/// If the first `i` cells and the cell at `i` are accepted, the failing
/// column lies further right.
proof fn lemma_row_bytes_err_step(
    cols: Seq<TableColumnV>,
    id: u64,
    vals: Seq<(Seq<char>, Seq<char>)>,
    i: int,
)
    requires
        row_bytes(cols, id, vals) is Err,
        0 <= i < cols.len(),
        i <= row_bytes(cols, id, vals)->Err_0,
        cell_bytes(cols[i], id, vals) is Some,
    ensures
        row_bytes(cols, id, vals)->Err_0 > i,
    decreases cols.len(),
{
    assert(cell_bytes(cols[0], id, vals) is Some) by {
        if i > 0 && cell_bytes(cols[0], id, vals) is None {
            assert(row_bytes(cols, id, vals)->Err_0 == 0);
        }
    }
    let rest = cols.drop_first();
    assert(row_bytes(rest, id, vals) is Err);
    assert(row_bytes(cols, id, vals)->Err_0 == row_bytes(rest, id, vals)->Err_0 + 1);
    lemma_row_bytes_err_range(rest, id, vals);
    if i > 0 {
        assert(rest[i - 1] == cols[i]);
        lemma_row_bytes_err_step(rest, id, vals, i - 1);
    }
}

impl TableDescriptor {
    /// The index of the column whose supplied value `get_insertion_bytes`
    /// rejected.
    pub fn first_rejected_column(&self, columns: &[(&str, &str)]) -> (i: usize)
        requires
            row_bytes(self@.columns, 0, pairs_view(columns@)) is Err,
        ensures
            ({
                let k = row_bytes(self@.columns, 0, pairs_view(columns@))->Err_0;
                0 <= k < self@.columns.len() && i == k
            }),
    {
        proof {
            lemma_row_bytes_err_range(self@.columns, 0, pairs_view(columns@));
        }
        let ghost cols = self@.columns;
        let ghost vals = pairs_view(columns@);
        let n = self.columns.len();
        let mut i: usize = 0;
        loop
            invariant
                0 <= i < n,
                n == cols.len(),
                cols == self@.columns,
                self@.columns == self.columns@.map_values(|c: TableColumn| c@),
                vals == pairs_view(columns@),
                row_bytes(cols, 0, vals) is Err,
                i <= row_bytes(cols, 0, vals)->Err_0 < n,
                forall|j: int| 0 <= j < i ==> cell_bytes(#[trigger] cols[j], 0, vals) is Some,
            decreases n - i,
        {
            proof {
                assert(cols[i as int] == self.columns@[i as int]@);
            }
            let col = &self.columns[i];
            if col.datatype == ColumnDataType::SerialId {
                proof {
                    lemma_row_bytes_err_step(cols, 0, vals, i as int);
                }
            } else {
                match find_value(columns, col.name.as_str()) {
                    Some(txt) => {
                        match col.datatype.parse_string(txt) {
                            Ok(_) => {
                                proof {
                                    lemma_row_bytes_err_step(cols, 0, vals, i as int);
                                }
                            },
                            Err(_) => {
                                proof {
                                    lemma_row_bytes_first_fail(cols, 0, vals, i as int);
                                }
                                return i;
                            },
                        }
                    },
                    None => {
                        proof {
                            lemma_row_bytes_err_step(cols, 0, vals, i as int);
                        }
                    },
                }
            }
            i = i + 1;
        }
    }
}

/// The declared types of the columns handed to `TableDescriptor::new`.
pub open spec fn decl_view(s: Seq<(&str, ColumnDataType)>) -> Seq<(Seq<char>, ColumnDataType)> {
    s.map_values(|p: (&str, ColumnDataType)| (p.0@, p.1))
}

pub open spec fn decl_serial_count(ps: Seq<(Seq<char>, ColumnDataType)>) -> int
    decreases ps.len(),
{
    if ps.len() == 0 {
        0
    } else {
        (if ps[0].1 == ColumnDataType::SerialId {
            1int
        } else {
            0int
        }) + decl_serial_count(ps.drop_first())
    }
}

pub open spec fn decl_size_up_to(ps: Seq<(Seq<char>, ColumnDataType)>, k: int) -> int
    decreases k,
{
    if k <= 0 {
        0
    } else {
        decl_size_up_to(ps, k - 1) + ps[k - 1].1.spec_size()
    }
}

pub open spec fn decl_has_dup(ps: Seq<(Seq<char>, ColumnDataType)>) -> bool {
    exists|i: int, j: int| 0 <= i < j < ps.len() && (#[trigger] ps[i]).0 == (#[trigger] ps[j]).0
}

proof fn lemma_serial_count_push(cols: Seq<TableColumnV>, c: TableColumnV)
    ensures
        serial_count(cols.push(c)) == serial_count(cols) + (if c.datatype
            == ColumnDataType::SerialId {
            1int
        } else {
            0int
        }),
    decreases cols.len(),
{
    assert(cols.push(c)[0] == if cols.len() == 0 {
        c
    } else {
        cols[0]
    });
    if cols.len() == 0 {
        assert(cols.push(c).drop_first() =~= Seq::<TableColumnV>::empty());
        assert(serial_count(Seq::<TableColumnV>::empty()) == 0);
        assert(serial_count(cols) == 0);
    } else {
        assert(cols.push(c).drop_first() =~= cols.drop_first().push(c));
        lemma_serial_count_push(cols.drop_first(), c);
    }
}

/// The serial count of built columns equals that of the declarations they
/// came from.
proof fn lemma_decl_count_eq(cols: Seq<TableColumnV>, ps: Seq<(Seq<char>, ColumnDataType)>)
    requires
        cols.len() == ps.len(),
        forall|k: int| 0 <= k < cols.len() ==> (#[trigger] cols[k]).datatype == ps[k].1,
    ensures
        serial_count(cols) == decl_serial_count(ps),
    decreases cols.len(),
{
    if cols.len() > 0 {
        let rc = cols.drop_first();
        let rp = ps.drop_first();
        assert(forall|k: int| 0 <= k < rc.len() ==> rc[k] == #[trigger] cols[k + 1]);
        assert(forall|k: int| 0 <= k < rp.len() ==> rp[k] == #[trigger] ps[k + 1]);
        lemma_decl_count_eq(rc, rp);
    }
}

proof fn lemma_decl_size_mono(ps: Seq<(Seq<char>, ColumnDataType)>, i: int, j: int)
    requires
        0 <= i <= j,
    ensures
        decl_size_up_to(ps, i) <= decl_size_up_to(ps, j),
    decreases j - i,
{
    if i < j {
        lemma_decl_size_mono(ps, i, j - 1);
    }
}

impl TableDescriptor {
    /// Declare a table: compute the layout by a left-to-right prefix sum and
    /// enforce the invariants (one serial id, unique names, row fits memory).
    pub fn new(name: &str, columns: Vec<(&str, ColumnDataType)>) -> (r: Result<
        TableDescriptor,
        SchemaError,
    >)
        ensures
            ({
                let ps = decl_view(columns@);
                &&& (r matches Err(e) ==> (e matches SchemaError::DuplicateColumn(nm) ==> (
                decl_has_dup(ps) && exists|i: int, j: int|
                    0 <= i < j < ps.len() && (#[trigger] ps[i]).0 == (#[trigger] ps[j]).0 && nm@
                        == ps[j].0)))
                &&& (decl_has_dup(ps) ==> (r matches Err(e)
                    && e matches SchemaError::DuplicateColumn(nm)))
                &&& (!decl_has_dup(ps) && decl_size_up_to(ps, ps.len() as int) > usize::MAX <==> r
                    == Err::<TableDescriptor, SchemaError>(SchemaError::TableTooLarge))
                &&& (!decl_has_dup(ps) && decl_size_up_to(ps, ps.len() as int) <= usize::MAX
                    && decl_serial_count(ps) != 1 <==> r == Err::<TableDescriptor, SchemaError>(
                    SchemaError::MissingSerialId,
                ))
                &&& (r matches Ok(t) ==> {
                    &&& t@.table_name == name@
                    &&& t@.columns.len() == ps.len()
                    &&& forall|i: int|
                        0 <= i < ps.len() ==> (#[trigger] t@.columns[i]).name == ps[i].0
                            && t@.columns[i].datatype == ps[i].1
                    &&& table_wf(t@)
                })
                &&& (r is Ok <==> !decl_has_dup(ps) && decl_size_up_to(ps, ps.len() as int)
                    <= usize::MAX && decl_serial_count(ps) == 1)
            }),
    {
        let ghost ps = decl_view(columns@);
        let n = columns.len();
        // reject duplicate column names
        let mut j: usize = 0;
        while j < n
            invariant
                0 <= j <= n,
                n == ps.len(),
                ps == decl_view(columns@),
                forall|a: int, b: int|
                    0 <= a < b < j ==> (#[trigger] ps[a]).0 != (#[trigger] ps[b]).0,
            decreases n - j,
        {
            let mut i: usize = 0;
            while i < j
                invariant
                    0 <= i <= j < n,
                    n == ps.len(),
                    ps == decl_view(columns@),
                    forall|a: int| 0 <= a < i ==> (#[trigger] ps[a]).0 != ps[j as int].0,
                decreases j - i,
            {
                proof {
                    assert(ps[i as int].0 == columns@[i as int].0@);
                    assert(ps[j as int].0 == columns@[j as int].0@);
                }
                if str_eq(columns[i].0, columns[j].0) {
                    return Err(SchemaError::DuplicateColumn(columns[j].0.to_owned()));
                }
                i = i + 1;
            }
            j = j + 1;
        }
        assert(!decl_has_dup(ps));
        // lay the columns out and count the serial ids
        let mut cols: Vec<TableColumn> = Vec::new();
        let mut offset: usize = 0;
        let mut serials: usize = 0;
        let mut i: usize = 0;
        while i < n
            invariant
                0 <= i <= n,
                n == ps.len(),
                ps == decl_view(columns@),
                !decl_has_dup(ps),
                forall|a: int, b: int|
                    0 <= a < b < ps.len() ==> (#[trigger] ps[a]).0 != (#[trigger] ps[b]).0,
                cols@.len() == i,
                offset == decl_size_up_to(ps, i as int),
                serials <= i,
                serial_count(cols@.map_values(|c: TableColumn| c@)) == serials as int,
                decl_size_up_to(ps, i as int) == size_up_to(
                    cols@.map_values(|c: TableColumn| c@),
                    i as int,
                ),
                forall|k: int|
                    0 <= k < i ==> ((#[trigger] cols@[k])@.name == ps[k].0 && cols@[k]@.datatype
                        == ps[k].1 && cols@[k]@.offset == size_up_to(
                        cols@.map_values(|c: TableColumn| c@),
                        k,
                    )),
            decreases n - i,
        {
            proof {
                assert(ps[i as int] == (columns@[i as int].0@, columns@[i as int].1));
            }
            let ghost oldv = cols@.map_values(|c: TableColumn| c@);
            let (cname, dt) = columns[i];
            let sz = dt.size_in_bytes();
            let next = match offset.checked_add(sz) {
                Some(next) => next,
                None => {
                    proof {
                        assert(ps[i as int].1 == dt);
                        assert(decl_size_up_to(ps, i as int + 1) == offset + sz);
                        lemma_decl_size_mono(ps, i as int + 1, n as int);
                    }
                    return Err(SchemaError::TableTooLarge);
                },
            };
            if dt == ColumnDataType::SerialId {
                serials = serials + 1;
            }
            let tc = TableColumn { name: cname.to_owned(), datatype: dt, offset };
            cols.push(tc);
            proof {
                let newv = cols@.map_values(|c: TableColumn| c@);
                assert(newv =~= oldv.push(cols@[i as int]@));
                lemma_serial_count_push(oldv, cols@[i as int]@);
                assert(forall|k: int| 0 <= k < i ==> newv[k] == #[trigger] oldv[k]);
                lemma_size_up_to_same(oldv, newv, i as int);
            }
            offset = next;
            i = i + 1;
        }
        proof {
            let mapped = cols@.map_values(|c: TableColumn| c@);
            assert(forall|k: int| 0 <= k < mapped.len() ==> #[trigger] mapped[k] == cols@[k]@);
            lemma_decl_count_eq(mapped, ps);
        }
        if serials != 1 {
            return Err(SchemaError::MissingSerialId);
        }
        let t = TableDescriptor { table_name: name.to_owned(), columns: cols };
        proof {
            let mapped = cols@.map_values(|c: TableColumn| c@);
            assert(t@.columns == mapped);
            assert(forall|k: int| 0 <= k < mapped.len() ==> #[trigger] mapped[k] == cols@[k]@);
            assert(spec_row_size(t@) == decl_size_up_to(ps, n as int));
            assert(table_wf(t@)) by {
                assert(forall|k: int|
                    0 <= k < mapped.len() ==> (#[trigger] mapped[k]).offset == size_up_to(
                        mapped,
                        k,
                    ));
                assert(forall|a: int, b: int|
                    0 <= a < b < mapped.len() ==> (#[trigger] mapped[a]).name != (
                    #[trigger] mapped[b]).name) by {
                    assert(forall|a: int, b: int|
                        0 <= a < b < ps.len() ==> (#[trigger] ps[a]).0 != (#[trigger] ps[b]).0);
                }
            }
        }
        Ok(t)
    }
}

/// Prefix sums agree on any prefix where the columns agree.
proof fn lemma_size_up_to_same(a: Seq<TableColumnV>, b: Seq<TableColumnV>, k: int)
    requires
        forall|j: int| 0 <= j < k ==> a[j] == #[trigger] b[j],
    ensures
        forall|m: int| 0 <= m <= k ==> size_up_to(a, m) == size_up_to(b, m),
    decreases k,
{
    if k > 0 {
        lemma_size_up_to_same(a, b, k - 1);
        assert forall|m: int| 0 <= m <= k implies size_up_to(a, m) == size_up_to(b, m) by {
            if m == k {
                assert(size_up_to(a, k - 1) == size_up_to(b, k - 1));
            }
        }
    }
}

/// First table of that name in a catalog, if any.
pub open spec fn tbl_named(ts: Seq<TableDescriptorV>, name: Seq<char>) -> Option<int>
    decreases ts.len(),
{
    if ts.len() == 0 {
        None
    } else if ts[0].table_name == name {
        Some(0int)
    } else {
        match tbl_named(ts.drop_first(), name) {
            Some(i) => Some(i + 1),
            None => None,
        }
    }
}

pub proof fn lemma_tbl_named_hit(ts: Seq<TableDescriptorV>, name: Seq<char>, i: int)
    requires
        0 <= i < ts.len(),
        ts[i].table_name == name,
        forall|j: int| 0 <= j < i ==> (#[trigger] ts[j]).table_name != name,
    ensures
        tbl_named(ts, name) == Some(i),
    decreases ts.len(),
{
    if i > 0 {
        let rest = ts.drop_first();
        assert(forall|j: int| 0 <= j < rest.len() ==> rest[j] == #[trigger] ts[j + 1]);
        lemma_tbl_named_hit(rest, name, i - 1);
    }
}

pub proof fn lemma_tbl_named_miss(ts: Seq<TableDescriptorV>, name: Seq<char>)
    requires
        forall|j: int| 0 <= j < ts.len() ==> (#[trigger] ts[j]).table_name != name,
    ensures
        tbl_named(ts, name) is None,
    decreases ts.len(),
{
    if ts.len() > 0 {
        let rest = ts.drop_first();
        assert(forall|j: int| 0 <= j < rest.len() ==> rest[j] == #[trigger] ts[j + 1]);
        lemma_tbl_named_miss(rest, name);
    }
}

/// A found column index lies in range and bears the name.
pub proof fn lemma_col_named_range(cols: Seq<TableColumnV>, name: Seq<char>)
    ensures
        col_named(cols, name) matches Some(i) ==> 0 <= i < cols.len() && cols[i].name == name,
    decreases cols.len(),
{
    if cols.len() > 0 && cols[0].name != name {
        lemma_col_named_range(cols.drop_first(), name);
    }
}

/// A found table index lies in range and bears the name.
pub proof fn lemma_tbl_named_range(ts: Seq<TableDescriptorV>, name: Seq<char>)
    ensures
        tbl_named(ts, name) matches Some(i) ==> 0 <= i < ts.len() && ts[i].table_name == name,
    decreases ts.len(),
{
    if ts.len() > 0 && ts[0].table_name != name {
        lemma_tbl_named_range(ts.drop_first(), name);
    }
}

impl TableColumn {
    /// A structural copy.
    pub fn clone_column(&self) -> (c: TableColumn)
        ensures
            c@ == self@,
    {
        TableColumn { name: self.name.clone(), datatype: self.datatype, offset: self.offset }
    }
}

impl TableDescriptor {
    /// A structural copy.
    pub fn clone_descriptor(&self) -> (t: TableDescriptor)
        ensures
            t@ == self@,
    {
        let mut columns: Vec<TableColumn> = Vec::new();
        let n = self.columns.len();
        let mut i: usize = 0;
        while i < n
            invariant
                0 <= i <= n,
                n == self.columns@.len(),
                columns@.len() == i,
                forall|k: int| 0 <= k < i ==> (#[trigger] columns@[k])@ == self.columns@[k]@,
            decreases n - i,
        {
            columns.push(self.columns[i].clone_column());
            i = i + 1;
        }
        let t = TableDescriptor { table_name: self.table_name.clone(), columns };
        proof {
            assert(t@.columns =~= self@.columns) by {
                assert(forall|k: int|
                    0 <= k < n ==> (#[trigger] t@.columns[k]) == columns@[k]@ && self@.columns[k]
                        == self.columns@[k]@);
            }
        }
        t
    }
}

/// Anything that can look a table descriptor up by name.
pub trait GetTableDescriptor {
    /// The ordered catalog the lookup searches.
    spec fn catalog(&self) -> Seq<TableDescriptorV>;

    /// The first table of that name, if any.
    fn table_with_name(&self, table_name: &str) -> (r: Option<&TableDescriptor>)
        ensures
            match tbl_named(self.catalog(), table_name@) {
                Some(i) => r matches Some(t) && t@ == self.catalog()[i],
                None => r is None,
            },
    ;
}

impl DatabaseDescriptor {
    /// Declare a database over the given tables; table names must be unique.
    pub fn new(name: &str, tables: Vec<TableDescriptor>) -> (r: Result<
        DatabaseDescriptor,
        SchemaError,
    >)
        ensures
            ({
                let ts = tables@.map_values(|t: TableDescriptor| t@);
                &&& (r matches Ok(d) ==> d@.db_name == name@ && d@.tables == ts)
                &&& (r is Ok <==> !(exists|i: int, j: int|
                    0 <= i < j < ts.len() && (#[trigger] ts[i]).table_name == (
                    #[trigger] ts[j]).table_name))
                &&& (r matches Err(e) ==> e matches SchemaError::DuplicateTable(nm)
                    && exists|i: int, j: int|
                    0 <= i < j < ts.len() && (#[trigger] ts[i]).table_name == (
                    #[trigger] ts[j]).table_name && nm@ == ts[j].table_name)
            }),
    {
        let ghost ts = tables@.map_values(|t: TableDescriptor| t@);
        let n = tables.len();
        let mut j: usize = 0;
        while j < n
            invariant
                0 <= j <= n,
                n == ts.len(),
                ts == tables@.map_values(|t: TableDescriptor| t@),
                forall|a: int, b: int|
                    0 <= a < b < j ==> (#[trigger] ts[a]).table_name != (
                    #[trigger] ts[b]).table_name,
            decreases n - j,
        {
            let mut i: usize = 0;
            while i < j
                invariant
                    0 <= i <= j < n,
                    n == ts.len(),
                    ts == tables@.map_values(|t: TableDescriptor| t@),
                    forall|a: int|
                        0 <= a < i ==> (#[trigger] ts[a]).table_name != ts[j as int].table_name,
                decreases j - i,
            {
                proof {
                    assert(ts[i as int] == tables@[i as int]@);
                    assert(ts[j as int] == tables@[j as int]@);
                }
                if str_eq(tables[i].table_name.as_str(), tables[j].table_name.as_str()) {
                    return Err(SchemaError::DuplicateTable(tables[j].table_name.clone()));
                }
                i = i + 1;
            }
            j = j + 1;
        }
        Ok(DatabaseDescriptor { db_name: name.to_owned(), tables })
    }

    /// Add a table; fails when one of that name already exists.
    pub fn add_table(&mut self, table: TableDescriptor) -> (r: Result<(), SchemaError>)
        ensures
            match tbl_named(old(self)@.tables, table@.table_name) {
                Some(_) => r matches Err(e) && (e matches SchemaError::DuplicateTable(nm) && nm@
                    == table@.table_name) && final(self)@ == old(self)@,
                None => r is Ok && final(self)@.db_name == old(self)@.db_name
                    && final(self)@.tables == old(self)@.tables.push(table@),
            },
    {
        let found = match self.table_with_name_impl(table.table_name.as_str()) {
            Some(_) => true,
            None => false,
        };
        if found {
            return Err(SchemaError::DuplicateTable(table.table_name.clone()));
        }
        let ghost oldtables = self@.tables;
        self.tables.push(table);
        proof {
            assert(self@.tables =~= oldtables.push(self.tables@[oldtables.len() as int]@));
        }
        Ok(())
    }

    /// The first table of that name, if any.
    fn table_with_name_impl(&self, table_name: &str) -> (r: Option<&TableDescriptor>)
        ensures
            match tbl_named(self@.tables, table_name@) {
                Some(i) => r matches Some(t) && t@ == self@.tables[i],
                None => r is None,
            },
    {
        let n = self.tables.len();
        let mut i: usize = 0;
        while i < n
            invariant
                0 <= i <= n,
                n == self@.tables.len(),
                self@.tables == self.tables@.map_values(|t: TableDescriptor| t@),
                forall|j: int| 0 <= j < i ==> (#[trigger] self@.tables[j]).table_name != table_name@,
            decreases n - i,
        {
            proof {
                assert(self@.tables[i as int] == self.tables@[i as int]@);
            }
            if str_eq(self.tables[i].table_name.as_str(), table_name) {
                proof {
                    lemma_tbl_named_hit(self@.tables, table_name@, i as int);
                }
                return Some(&self.tables[i]);
            }
            i = i + 1;
        }
        proof {
            lemma_tbl_named_miss(self@.tables, table_name@);
        }
        None
    }
}

impl GetTableDescriptor for DatabaseDescriptor {
    open spec fn catalog(&self) -> Seq<TableDescriptorV> {
        self@.tables
    }

    fn table_with_name(&self, table_name: &str) -> (r: Option<&TableDescriptor>) {
        self.table_with_name_impl(table_name)
    }
}

} // verus!
