//! Append-only row stores. Both variants share one contract (`ByteStore`):
//! `insert` encodes a full row via the schema, appends it atomically and
//! advances the serial id counter; `get_reader` exposes the stored rows as
//! one byte stream in insertion order.
//!
//! The file-backed variant works on an in-memory image of its table file
//! (64-byte header holding the little-endian id counter, then the rows);
//! reading the image from disk and writing it back is the caller's part.

use vstd::prelude::*;
use crate::schema::{
    cell_bytes, pairs_view, parse_err_matches, row_bytes, lookup_value, table_wf, SchemaError,
    TableDescriptor,
};
use crate::bytes::encode_u64;
use vstd::bytes::{
    spec_u64_from_le_bytes, spec_u64_to_le_bytes, u64_from_le_bytes,
    lemma_auto_spec_u64_to_from_le_bytes,
};

verus! {

/// Errors raised by the row stores and the query executor.
#[derive(Debug, Clone, PartialEq, Eq)]
pub enum StorageError {
    /// An encoded row did not match the declared row size.
    InvalidRowSize,
    /// `EncodingError(column_name, reason)`: a supplied value was rejected.
    EncodingError(String, SchemaError),
    /// An input/output failure in the surrounding program.
    IOError(String),
    /// The stored bytes are not a whole number of rows, or a row failed to
    /// decode.
    CorruptStore,
    /// Every serial id has been assigned.
    CounterExhausted,
    /// The queried table has no row store.
    NoSuchTable(String),
}

/// What one `insert` call does: on success exactly one encoded row is
/// appended and the counter advances by one; on any failure the store is
/// unchanged and the error names the cause.
pub open spec fn insert_outcome(
    t: crate::schema::TableDescriptorV,
    vals: Seq<(Seq<char>, Seq<char>)>,
    rows0: Seq<u8>,
    ctr0: u64,
    rows1: Seq<u8>,
    ctr1: u64,
    r: Result<(), StorageError>,
) -> bool {
    match r {
        Ok(_) => ctr0 < u64::MAX && ctr1 == ctr0 + 1 && (row_bytes(t.columns, ctr0, vals)
            matches Ok(b) && rows1 == rows0 + b),
        Err(e) => rows1 == rows0 && ctr1 == ctr0 && (match row_bytes(t.columns, ctr0, vals) {
            Ok(_) => ctr0 == u64::MAX && e == StorageError::CounterExhausted,
            Err(i) => e matches StorageError::EncodingError(cn, reason) && cn@
                == t.columns[i].name && parse_err_matches(
                t.columns[i].datatype,
                lookup_value(vals, t.columns[i].name)->Some_0,
                reason,
            ),
        }),
    }
}

/// The shared contract of the row store variants.
pub trait ByteStore {
    /// The concatenated stored rows, in insertion order.
    spec fn rows(&self) -> Seq<u8>;

    /// The next serial id to assign.
    spec fn counter(&self) -> u64;

    /// The store's internal well-formedness.
    spec fn inv(&self) -> bool;

    /// Encode one row for `descriptor` from the supplied `(name, value)`
    /// pairs, append it, and advance the id counter; on any error the store
    /// is unchanged.
    fn insert(&mut self, descriptor: &TableDescriptor, columns: &[(&str, &str)]) -> (r: Result<
        (),
        StorageError,
    >)
        requires
            table_wf(descriptor@),
            old(self).inv(),
        ensures
            final(self).inv(),
            insert_outcome(
                descriptor@,
                pairs_view(columns@),
                old(self).rows(),
                old(self).counter(),
                final(self).rows(),
                final(self).counter(),
                r,
            ),
    ;

    /// A forward reader over the stored rows: the raw bytes in insertion
    /// order, with no framing.
    fn get_reader(&self) -> (r: &[u8])
        requires
            self.inv(),
        ensures
            r@ == self.rows(),
    ;
}

/// A volatile store backed by an extensible byte vector.
#[derive(Debug)]
pub struct InMemoryByteStore {
    pub table_name: String,
    pub id_counter: u64,
    pub mem: Vec<u8>,
}

impl InMemoryByteStore {
    /// A fresh, empty store; ids start at zero.
    pub fn new(table_descriptor: &TableDescriptor) -> (r: InMemoryByteStore)
        ensures
            r.table_name@ == table_descriptor@.table_name,
            r.id_counter == 0,
            r.mem@ == Seq::<u8>::empty(),
    {
        InMemoryByteStore {
            table_name: table_descriptor.table_name.clone(),
            id_counter: 0,
            mem: Vec::new(),
        }
    }
}

impl ByteStore for InMemoryByteStore {
    open spec fn rows(&self) -> Seq<u8> {
        self.mem@
    }

    open spec fn counter(&self) -> u64 {
        self.id_counter
    }

    open spec fn inv(&self) -> bool {
        true
    }

    fn insert(&mut self, descriptor: &TableDescriptor, columns: &[(&str, &str)]) -> (r: Result<
        (),
        StorageError,
    >) {
        let id = self.id_counter;
        let mut bytes = match descriptor.get_insertion_bytes(id, columns) {
            Ok(b) => b,
            Err(e) => {
                proof {
                    crate::schema::lemma_row_bytes_err_id_independent(
                        descriptor@.columns,
                        pairs_view(columns@),
                    );
                }
                let i = descriptor.first_rejected_column(columns);
                return Err(StorageError::EncodingError(descriptor.columns[i].name.clone(), e));
            },
        };
        if id == u64::MAX {
            return Err(StorageError::CounterExhausted);
        }
        self.id_counter = id + 1;
        self.mem.append(&mut bytes);
        Ok(())
    }

    fn get_reader(&self) -> (r: &[u8]) {
        self.mem.as_slice()
    }
}

/// A store backed by the in-memory image of a table file: a 64-byte header
/// whose first eight bytes hold the next id little-endian, then the rows.
#[derive(Debug)]
pub struct FileByteStore {
    pub table_name: String,
    pub id_counter: u64,
    pub image: Vec<u8>,
}

/// How many bytes of a table file the header takes.
pub const FILE_HEADER_SIZE: usize = 64;

impl FileByteStore {
    /// A fresh table file image: a zeroed 64-byte header, no rows.
    pub fn new(table_descriptor: &TableDescriptor) -> (r: FileByteStore)
        ensures
            r.inv(),
            r.table_name@ == table_descriptor@.table_name,
            r.id_counter == 0,
            r.rows() == Seq::<u8>::empty(),
            r.image@ == crate::schema::zero_bytes(64),
    {
        let mut image = encode_u64(0u64);
        let ghost header = image@;
        proof {
            lemma_auto_spec_u64_to_from_le_bytes();
            assert(image@.take(8) =~= header);
        }
        let mut k: usize = 8;
        while k < FILE_HEADER_SIZE
            invariant
                8 <= k <= 64,
                image@.len() == k,
                image@.take(8) == header,
                forall|j: int| 8 <= j < k ==> image@[j] == 0u8,
            decreases 64 - k,
        {
            image.push(0u8);
            assert(image@.take(8) =~= header);
            k = k + 1;
        }
        proof {
            lemma_auto_spec_u64_to_from_le_bytes();
            assert(image@ =~= crate::schema::zero_bytes(64)) by {
                assert(spec_u64_to_le_bytes(0u64).len() == 8);
                assert(spec_u64_from_le_bytes(spec_u64_to_le_bytes(0u64)) == 0);
                assert(forall|j: int|
                    0 <= j < 8 ==> #[trigger] image@[j] == spec_u64_to_le_bytes(0u64)[j]);
                assert(forall|j: int| 0 <= j < 8 ==> #[trigger] spec_u64_to_le_bytes(0u64)[j]
                    == 0u8) by {
                    lemma_le_zero_is_zero();
                }
            }
            assert(image@.skip(64) =~= Seq::<u8>::empty());
        }
        FileByteStore { table_name: table_descriptor.table_name.clone(), id_counter: 0, image }
    }

    /// Adopt an existing table file image; the next id is read from the
    /// header. An image shorter than the header is rejected.
    pub fn open(table_name: &str, image: Vec<u8>) -> (r: Result<FileByteStore, StorageError>)
        ensures
            image@.len() >= 64 ==> (r matches Ok(s) && s.inv() && s.table_name@ == table_name@
                && s.id_counter == spec_u64_from_le_bytes(image@.take(8)) && s.image@ == image@
                && s.rows() == image@.skip(64)),
            image@.len() < 64 ==> r == Result::<FileByteStore, StorageError>::Err(
                StorageError::CorruptStore,
            ),
    {
        if image.len() < FILE_HEADER_SIZE {
            return Err(StorageError::CorruptStore);
        }
        let hdr: &[u8] = &image.as_slice()[0..8];
        assert(hdr@ =~= image@.take(8));
        let id_counter = u64_from_le_bytes(hdr);
        proof {
            lemma_auto_spec_u64_to_from_le_bytes();
        }
        Ok(FileByteStore { table_name: table_name.to_owned(), id_counter, image })
    }

    /// The raw file image, for the caller to persist.
    pub fn as_bytes(&self) -> (r: &[u8])
        ensures
            r@ == self.image@,
    {
        self.image.as_slice()
    }
}

/// The little-endian bytes of zero are all zero.
proof fn lemma_le_zero_is_zero()
    ensures
        forall|j: int| 0 <= j < 8 ==> #[trigger] spec_u64_to_le_bytes(0u64)[j] == 0u8,
{
    vstd::bytes::spec_u64_to_le_bytes_to_open(0u64);
    assert((0u64 & 0xff) == 0 && ((0u64 >> 8) & 0xff) == 0 && ((0u64 >> 16) & 0xff) == 0 && ((0u64
        >> 24) & 0xff) == 0 && ((0u64 >> 32) & 0xff) == 0 && ((0u64 >> 40) & 0xff) == 0 && ((0u64
        >> 48) & 0xff) == 0 && ((0u64 >> 56) & 0xff) == 0) by (bit_vector);
    assert forall|j: int| 0 <= j < 8 implies #[trigger] spec_u64_to_le_bytes(0u64)[j] == 0u8 by {
        let s = vstd::bytes::spec_u64_to_le_bytes_open(0u64);
        assert(s[0] == 0 && s[1] == 0 && s[2] == 0 && s[3] == 0 && s[4] == 0 && s[5] == 0 && s[6]
            == 0 && s[7] == 0);
    }
}

impl ByteStore for FileByteStore {
    open spec fn rows(&self) -> Seq<u8> {
        self.image@.skip(64)
    }

    open spec fn counter(&self) -> u64 {
        self.id_counter
    }

    /// The image holds at least the header, and the header's first eight
    /// bytes encode the id counter.
    open spec fn inv(&self) -> bool {
        self.image@.len() >= 64 && self.image@.take(8) == spec_u64_to_le_bytes(self.id_counter)
    }

    fn insert(&mut self, descriptor: &TableDescriptor, columns: &[(&str, &str)]) -> (r: Result<
        (),
        StorageError,
    >) {
        let id = self.id_counter;
        let mut bytes = match descriptor.get_insertion_bytes(id, columns) {
            Ok(b) => b,
            Err(e) => {
                proof {
                    crate::schema::lemma_row_bytes_err_id_independent(
                        descriptor@.columns,
                        pairs_view(columns@),
                    );
                }
                let i = descriptor.first_rejected_column(columns);
                return Err(StorageError::EncodingError(descriptor.columns[i].name.clone(), e));
            },
        };
        if id == u64::MAX {
            return Err(StorageError::CounterExhausted);
        }
        let ghost oldimg = self.image@;
        let ghost row = bytes@;
        self.image.append(&mut bytes);
        proof {
            assert(self.image@.take(8) =~= oldimg.take(8));
        }
        let next = id + 1;
        let hdr = encode_u64(next);
        let ghost grown = self.image@;
        let mut k: usize = 0;
        while k < 8
            invariant
                0 <= k <= 8,
                hdr@ == spec_u64_to_le_bytes(next),
                grown.len() >= 64,
                self.image@.len() == grown.len(),
                forall|j: int| 0 <= j < k ==> self.image@[j] == hdr@[j],
                forall|j: int| k <= j < grown.len() ==> self.image@[j] == grown[j],
            decreases 8 - k,
        {
            proof {
                lemma_auto_spec_u64_to_from_le_bytes();
                assert(hdr@.len() == 8);
            }
            let b = hdr[k];
            self.image[k] = b;
            k = k + 1;
        }
        self.id_counter = next;
        proof {
            lemma_auto_spec_u64_to_from_le_bytes();
            assert(self.image@.take(8) =~= spec_u64_to_le_bytes(next));
            assert(self.image@.skip(64) =~= grown.skip(64));
            assert(grown.skip(64) =~= oldimg.skip(64) + row);
        }
        Ok(())
    }

    fn get_reader(&self) -> (r: &[u8]) {
        let n = self.image.len();
        let r: &[u8] = &self.image.as_slice()[FILE_HEADER_SIZE..n];
        assert(r@ =~= self.image@.skip(64));
        r
    }
}

} // verus!
