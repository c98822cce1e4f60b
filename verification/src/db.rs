//! The database: a catalog of tables, one row store per table, and the
//! query executor, which streams the stored rows and evaluates projection
//! and WHERE predicate directly over their bytes.

use vstd::prelude::*;
use crate::schema::{
    column_text_of_bytes, pairs_view, serial_idx, spec_row_size, table_wf, tbl_named,
    lemma_tbl_named_hit, lemma_tbl_named_miss, lemma_wf_has_serial, lemma_column_window_in_row,
    DatabaseDescriptor, GetTableDescriptor, SchemaError, TableColumnV, TableDescriptor,
    TableDescriptorV,
};
use crate::store::{
    insert_outcome, ByteStore, FileByteStore, InMemoryByteStore, StorageError,
};
use crate::query::{
    select_query_wf, where_cmp_eval, where_cmp_width, SelectQuery, SelectQueryV, WhereConditionV,
};
use crate::text::str_eq;
use vstd::bytes::{spec_u64_from_le_bytes, u64_from_le_bytes};

verus! {

/// A row store of either variant.
pub enum StoreBackend {
    Memory(InMemoryByteStore),
    File(FileByteStore),
}

impl ByteStore for StoreBackend {
    open spec fn rows(&self) -> Seq<u8> {
        match self {
            StoreBackend::Memory(s) => s.rows(),
            StoreBackend::File(s) => s.rows(),
        }
    }

    open spec fn counter(&self) -> u64 {
        match self {
            StoreBackend::Memory(s) => s.counter(),
            StoreBackend::File(s) => s.counter(),
        }
    }

    open spec fn inv(&self) -> bool {
        match self {
            StoreBackend::Memory(s) => s.inv(),
            StoreBackend::File(s) => s.inv(),
        }
    }

    fn insert(&mut self, descriptor: &TableDescriptor, columns: &[(&str, &str)]) -> (r: Result<
        (),
        StorageError,
    >) {
        match self {
            StoreBackend::Memory(s) => s.insert(descriptor, columns),
            StoreBackend::File(s) => s.insert(descriptor, columns),
        }
    }

    fn get_reader(&self) -> (r: &[u8]) {
        match self {
            StoreBackend::Memory(s) => s.get_reader(),
            StoreBackend::File(s) => s.get_reader(),
        }
    }
}

// ---------------------------------------------------------------------------
// the executor's specification
/// The byte window a column occupies inside one row.
pub open spec fn col_window(row: Seq<u8>, c: TableColumnV) -> Seq<u8> {
    row.subrange(c.offset, c.offset + c.datatype.spec_size())
}

/// The first `k` projected columns of one row, decoded to text.
pub open spec fn sp_project_row(q: SelectQueryV, row: Seq<u8>, k: int) -> Result<
    Seq<(Seq<char>, Seq<char>)>,
    (),
>
    decreases k,
{
    if k <= 0 {
        Ok(Seq::empty())
    } else {
        match sp_project_row(q, row, k - 1) {
            Err(e) => Err(e),
            Ok(pre) => {
                let c = q.columns[k - 1];
                match column_text_of_bytes(c.datatype, col_window(row, c)) {
                    None => Err(()),
                    Some(txt) => Ok(pre.push((c.name, txt))),
                }
            },
        }
    }
}

/// Whether the first `k` conditions all hold of one row; evaluation
/// short-circuits on the first false condition.
pub open spec fn sp_where_holds(conds: Seq<WhereConditionV>, row: Seq<u8>, k: int) -> Result<
    bool,
    (),
>
    decreases k,
{
    if k <= 0 {
        Ok(true)
    } else {
        match sp_where_holds(conds, row, k - 1) {
            Err(e) => Err(e),
            Ok(b) => if !b {
                Ok(false)
            } else {
                where_cmp_eval(conds[k - 1].comparison, col_window(row, conds[k - 1].column))
            },
        }
    }
}

/// The conditions of a query's predicate; none means every row matches.
pub open spec fn sp_conds(q: SelectQueryV) -> Seq<WhereConditionV> {
    match q.where_predicate {
        Some(c) => c,
        None => Seq::empty(),
    }
}

/// Executing a query over the stored row bytes: rows are consumed in
/// insertion order; a trailing fragment or any decode failure is a corrupt
/// store.
pub open spec fn sp_execute(rows: Seq<u8>, q: SelectQueryV) -> Result<
    Seq<(u64, Seq<(Seq<char>, Seq<char>)>)>,
    (),
>
    decreases rows.len(),
{
    let rs = spec_row_size(q.table);
    if rows.len() == 0 {
        Ok(Seq::empty())
    } else if rs < 1 || rows.len() < rs {
        Err(())
    } else {
        match serial_idx(q.table.columns) {
            None => Err(()),
            Some(si) => {
                let row = rows.take(rs);
                let id = spec_u64_from_le_bytes(col_window(row, q.table.columns[si]).take(8));
                match sp_where_holds(sp_conds(q), row, sp_conds(q).len() as int) {
                    Err(_) => Err(()),
                    Ok(keep) => {
                        if keep {
                            match sp_project_row(q, row, q.columns.len() as int) {
                                Err(_) => Err(()),
                                Ok(proj) => match sp_execute(rows.skip(rs), q) {
                                    Err(e) => Err(e),
                                    Ok(tail) => Ok(seq![(id, proj)] + tail),
                                },
                            }
                        } else {
                            sp_execute(rows.skip(rs), q)
                        }
                    },
                }
            },
        }
    }
}

/// The character-level form of the executor's result rows.
pub open spec fn result_rows_view(v: Seq<(u64, Vec<(String, String)>)>) -> Seq<
    (u64, Seq<(Seq<char>, Seq<char>)>),
> {
    v.map_values(
        |p: (u64, Vec<(String, String)>)|
            (p.0, p.1@.map_values(|c: (String, String)| (c.0@, c.1@))),
    )
}

// ---------------------------------------------------------------------------
// the database
/// The catalog and one row store per declared table, in the same order.
pub struct Database {
    descriptor: DatabaseDescriptor,
    stores: Vec<StoreBackend>,
}

impl Database {
    /// The database's invariant: one well-formed store per catalog entry,
    /// and every catalog table well formed.
    pub closed spec fn inv(&self) -> bool {
        &&& self.stores@.len() == self.descriptor@.tables.len()
        &&& forall|i: int|
            0 <= i < self.stores@.len() ==> table_wf(#[trigger] self.descriptor@.tables[i])
        &&& forall|i: int| 0 <= i < self.stores@.len() ==> (#[trigger] self.stores@[i]).inv()
    }

    /// The stored row bytes of the table at catalog position `i`.
    pub closed spec fn store_rows(&self, i: int) -> Seq<u8> {
        self.stores@[i].rows()
    }

    /// The next serial id of the table at catalog position `i`.
    pub closed spec fn store_counter(&self, i: int) -> u64 {
        self.stores@[i].counter()
    }

    /// An empty database.
    pub fn new(db_name: &str) -> (db: Database)
        ensures
            db.inv(),
            db.catalog() == Seq::<TableDescriptorV>::empty(),
    {
        let db = Database {
            descriptor: DatabaseDescriptor { db_name: db_name.to_owned(), tables: Vec::new() },
            stores: Vec::new(),
        };
        proof {
            assert(db.catalog() =~= Seq::<TableDescriptorV>::empty());
        }
        db
    }

    /// Declare a table backed by a fresh in-memory store.
    pub fn add_table(&mut self, descriptor: TableDescriptor) -> (r: Result<(), SchemaError>)
        requires
            old(self).inv(),
            table_wf(descriptor@),
        ensures
            final(self).inv(),
            match tbl_named(old(self).catalog(), descriptor@.table_name) {
                Some(_) => (r matches Err(e) && (e matches SchemaError::DuplicateTable(nm) && nm@
                    == descriptor@.table_name)) && final(self).catalog() == old(self).catalog()
                    && (forall|i: int|
                    0 <= i < old(self).catalog().len() ==> (#[trigger] final(self).store_rows(i))
                        == old(self).store_rows(i) && final(self).store_counter(i) == old(
                        self,
                    ).store_counter(i)),
                None => r is Ok && final(self).catalog() == old(self).catalog().push(descriptor@)
                    && final(self).store_rows(old(self).catalog().len() as int) == Seq::<
                    u8,
                >::empty() && final(self).store_counter(old(self).catalog().len() as int) == 0 && (
                forall|i: int|
                    0 <= i < old(self).catalog().len() ==> (#[trigger] final(self).store_rows(i))
                        == old(self).store_rows(i) && final(self).store_counter(i) == old(
                        self,
                    ).store_counter(i)),
            },
    {
        let store = StoreBackend::Memory(InMemoryByteStore::new(&descriptor));
        self.add_table_with_store(descriptor, store)
    }

    /// Declare a table backed by the given store (for a table file image
    /// adopted from the surrounding program).
    pub fn add_table_with_store(&mut self, descriptor: TableDescriptor, store: StoreBackend) -> (r:
        Result<(), SchemaError>)
        requires
            old(self).inv(),
            table_wf(descriptor@),
            store.inv(),
        ensures
            final(self).inv(),
            match tbl_named(old(self).catalog(), descriptor@.table_name) {
                Some(_) => (r matches Err(e) && (e matches SchemaError::DuplicateTable(nm) && nm@
                    == descriptor@.table_name)) && final(self).catalog() == old(self).catalog()
                    && (forall|i: int|
                    0 <= i < old(self).catalog().len() ==> (#[trigger] final(self).store_rows(i))
                        == old(self).store_rows(i) && final(self).store_counter(i) == old(
                        self,
                    ).store_counter(i)),
                None => r is Ok && final(self).catalog() == old(self).catalog().push(descriptor@)
                    && final(self).store_rows(old(self).catalog().len() as int) == store.rows()
                    && final(self).store_counter(old(self).catalog().len() as int)
                    == store.counter() && (forall|i: int|
                    0 <= i < old(self).catalog().len() ==> (#[trigger] final(self).store_rows(i))
                        == old(self).store_rows(i) && final(self).store_counter(i) == old(
                        self,
                    ).store_counter(i)),
            },
    {
        match self.descriptor.add_table(descriptor) {
            Err(e) => Err(e),
            Ok(()) => {
                self.stores.push(store);
                Ok(())
            },
        }
    }

    /// The catalog position of the named table, if any.
    fn find_table_index(&self, name: &str) -> (r: Option<usize>)
        requires
            self.inv(),
        ensures
            match tbl_named(self.catalog(), name@) {
                Some(i) => r matches Some(fi) && fi as int == i && 0 <= i < self.catalog().len(),
                None => r is None,
            },
    {
        let ghost ts = self.catalog();
        proof {
            crate::schema::lemma_tbl_named_range(ts, name@);
        }
        let n = self.descriptor.tables.len();
        let mut idx: usize = 0;
        while idx < n
            invariant
                0 <= idx <= n,
                n == ts.len(),
                ts == self.catalog(),
                self.catalog() == self.descriptor.tables@.map_values(|t: TableDescriptor| t@),
                forall|j: int| 0 <= j < idx ==> (#[trigger] ts[j]).table_name != name@,
            decreases n - idx,
        {
            proof {
                assert(ts[idx as int] == self.descriptor.tables@[idx as int]@);
            }
            if str_eq(self.descriptor.tables[idx].table_name.as_str(), name) {
                proof {
                    lemma_tbl_named_hit(ts, name@, idx as int);
                }
                return Some(idx);
            }
            idx = idx + 1;
        }
        proof {
            lemma_tbl_named_miss(ts, name@);
        }
        None
    }

    /// Encode and append one row to the named table's store, assigning the
    /// next serial id.
    pub fn insert_columns(&mut self, table_name: &str, columns: &[(&str, &str)]) -> (r: Result<
        (),
        StorageError,
    >)
        requires
            old(self).inv(),
        ensures
            final(self).inv(),
            final(self).catalog() == old(self).catalog(),
            match tbl_named(old(self).catalog(), table_name@) {
                None => (r matches Err(e) && (e matches StorageError::NoSuchTable(nm) && nm@
                    == table_name@)) && (forall|i: int|
                    0 <= i < old(self).catalog().len() ==> (#[trigger] final(self).store_rows(i))
                        == old(self).store_rows(i) && final(self).store_counter(i) == old(
                        self,
                    ).store_counter(i)),
                Some(ti) => insert_outcome(
                    old(self).catalog()[ti],
                    pairs_view(columns@),
                    old(self).store_rows(ti),
                    old(self).store_counter(ti),
                    final(self).store_rows(ti),
                    final(self).store_counter(ti),
                    r,
                ) && (forall|i: int|
                    0 <= i < old(self).catalog().len() && i != ti ==> (#[trigger] final(self).store_rows(i)) == old(self).store_rows(i) && final(self).store_counter(i)
                        == old(self).store_counter(i)),
            },
    {
        let found = self.find_table_index(table_name);
        match found {
            None => Err(StorageError::NoSuchTable(table_name.to_owned())),
            Some(ti) => {
                let ghost oldstores = self.stores@;
                proof {
                    assert(self.catalog()[ti as int] == self.descriptor.tables@[ti as int]@);
                    assert(table_wf(self.descriptor.tables@[ti as int]@));
                    assert(self.stores@[ti as int].inv());
                }
                let table = &self.descriptor.tables[ti];
                let r = self.stores[ti].insert(table, columns);
                proof {
                    assert(forall|i: int|
                        0 <= i < oldstores.len() && i != ti ==> self.stores@[i]
                            == #[trigger] oldstores[i]);
                }
                r
            },
        }
    }

    /// Run a resolved query against the named table's store: stream the
    /// rows, keep those the predicate accepts, and decode the projected
    /// columns.
    pub fn query(&self, query: &SelectQuery) -> (r: Result<
        Vec<(u64, Vec<(String, String)>)>,
        StorageError,
    >)
        requires
            self.inv(),
            select_query_wf(query@),
            tbl_named(self.catalog(), query@.table.table_name) is Some,
        ensures
            ({
                let ti = tbl_named(self.catalog(), query@.table.table_name)->Some_0;
                match sp_execute(self.store_rows(ti), query@) {
                    Ok(out) => r matches Ok(v) && result_rows_view(v@) == out,
                    Err(_) => r == Err::<Vec<(u64, Vec<(String, String)>)>, StorageError>(
                        StorageError::CorruptStore,
                    ),
                }
            }),
    {
        let ghost ts = self.catalog();
        let ghost q = query@;
        proof {
            crate::schema::lemma_tbl_named_range(ts, q.table.table_name);
        }
        let ti = match self.find_table_index(query.table.table_name.as_str()) {
            Some(i) => i,
            None => {
                proof {
                    assert(false);
                }
                return Err(StorageError::CorruptStore);
            },
        };
        let data: &[u8] = self.stores[ti].get_reader();
        execute_scan(data, query)
    }
}

impl GetTableDescriptor for Database {
    closed spec fn catalog(&self) -> Seq<TableDescriptorV> {
        self.descriptor@.tables
    }

    fn table_with_name(&self, table_name: &str) -> (r: Option<&TableDescriptor>) {
        self.descriptor.table_with_name(table_name)
    }
}

// ---------------------------------------------------------------------------
// the scan loop
/// A false or failed prefix of the predicate decides the whole predicate.
proof fn lemma_where_prefix_decides(conds: Seq<WhereConditionV>, row: Seq<u8>, j: int, k: int)
    requires
        0 <= j <= k <= conds.len(),
    ensures
        sp_where_holds(conds, row, j) == Ok::<bool, ()>(false) ==> sp_where_holds(conds, row, k)
            == Ok::<bool, ()>(false),
        sp_where_holds(conds, row, j) is Err ==> sp_where_holds(conds, row, k) is Err,
    decreases k - j,
{
    if j < k {
        lemma_where_prefix_decides(conds, row, j + 1, k);
    }
}

/// A failed projection prefix fails the whole projection.
proof fn lemma_project_prefix_fails(q: SelectQueryV, row: Seq<u8>, j: int, k: int)
    requires
        0 <= j <= k <= q.columns.len(),
    ensures
        sp_project_row(q, row, j) is Err ==> sp_project_row(q, row, k) is Err,
    decreases k - j,
{
    if j < k {
        lemma_project_prefix_fails(q, row, j + 1, k);
    }
}

/// A well-formed query's table holds at least its eight-byte serial id.
proof fn lemma_row_size_at_least_serial(t: TableDescriptorV)
    requires
        table_wf(t),
    ensures
        spec_row_size(t) >= 8,
        serial_idx(t.columns) is Some,
{
    lemma_wf_has_serial(t);
    let si = serial_idx(t.columns)->Some_0;
    lemma_column_window_in_row(t, si);
}

/// Evaluate the whole predicate over one row.
fn eval_predicate(query: &SelectQuery, row: &[u8]) -> (r: Result<bool, StorageError>)
    requires
        select_query_wf(query@),
        row@.len() == spec_row_size(query@.table),
    ensures
        match sp_where_holds(sp_conds(query@), row@, sp_conds(query@).len() as int) {
            Ok(b) => r matches Ok(rb) && rb == b,
            Err(_) => r == Err::<bool, StorageError>(StorageError::CorruptStore),
        },
{
    let ghost q = query@;
    let ghost conds = sp_conds(q);
    match &query.where_predicate {
        None => Ok(true),
        Some(pred) => {
            let m = pred.conditions.len();
            let mut j: usize = 0;
            while j < m
                invariant
                    0 <= j <= m,
                    q == query@,
                    select_query_wf(q),
                    conds == sp_conds(q),
                    q.where_predicate matches Some(cs) && cs == conds,
                    m == conds.len(),
                    query.where_predicate matches Some(p) && p.conditions@.map_values(
                        |c: crate::query::WhereCondition| c@,
                    ) == conds,
                    row@.len() == spec_row_size(q.table),
                    sp_where_holds(conds, row@, j as int) == Ok::<bool, ()>(true),
                decreases m - j,
            {
                let pred2 = match &query.where_predicate {
                    Some(p) => p,
                    None => {
                        proof {
                            assert(false);
                        }
                        return Err(StorageError::CorruptStore);
                    },
                };
                let cond = &pred2.conditions[j];
                proof {
                    assert(conds[j as int] == pred2.conditions@[j as int]@);
                    assert(exists|jj: int|
                        0 <= jj < q.table.columns.len() && (#[trigger] conds[j as int]).column
                            == q.table.columns[jj] && where_cmp_width(conds[j as int].comparison)
                            <= q.table.columns[jj].datatype.spec_size());
                    let jj = choose|jj: int|
                        0 <= jj < q.table.columns.len() && (#[trigger] conds[j as int]).column
                            == q.table.columns[jj] && where_cmp_width(conds[j as int].comparison)
                            <= q.table.columns[jj].datatype.spec_size();
                    lemma_column_window_in_row(q.table, jj);
                }
                let off = cond.column.offset;
                let sz = cond.column.datatype.size_in_bytes();
                let window: &[u8] = &row[off..off + sz];
                proof {
                    assert(window@ =~= col_window(row@, conds[j as int].column));
                }
                match cond.comparison.is_true(window) {
                    Err(_) => {
                        proof {
                            lemma_where_prefix_decides(conds, row@, j as int + 1, m as int);
                        }
                        return Err(StorageError::CorruptStore);
                    },
                    Ok(false) => {
                        proof {
                            lemma_where_prefix_decides(conds, row@, j as int + 1, m as int);
                        }
                        return Ok(false);
                    },
                    Ok(true) => {
                        j = j + 1;
                    },
                }
            }
            Ok(true)
        },
    }
}

/// Decode the projected columns of one row.
fn project_row(query: &SelectQuery, row: &[u8]) -> (r: Result<
    Vec<(String, String)>,
    StorageError,
>)
    requires
        select_query_wf(query@),
        row@.len() == spec_row_size(query@.table),
    ensures
        match sp_project_row(query@, row@, query@.columns.len() as int) {
            Ok(proj) => r matches Ok(v) && v@.map_values(|c: (String, String)| (c.0@, c.1@))
                == proj,
            Err(_) => r == Err::<Vec<(String, String)>, StorageError>(StorageError::CorruptStore),
        },
{
    let ghost q = query@;
    let m = query.columns.len();
    let mut out: Vec<(String, String)> = Vec::new();
    proof {
        assert(out@.map_values(|c: (String, String)| (c.0@, c.1@)) =~= Seq::<
            (Seq<char>, Seq<char>),
        >::empty());
    }
    let mut j: usize = 0;
    while j < m
        invariant
            0 <= j <= m,
            q == query@,
            select_query_wf(q),
            m == q.columns.len(),
            query.columns@.map_values(|c: crate::schema::TableColumn| c@) == q.columns,
            row@.len() == spec_row_size(q.table),
            sp_project_row(q, row@, j as int) == Ok::<Seq<(Seq<char>, Seq<char>)>, ()>(
                out@.map_values(|c: (String, String)| (c.0@, c.1@)),
            ),
        decreases m - j,
    {
        let col = &query.columns[j];
        proof {
            assert(q.columns[j as int] == query.columns@[j as int]@);
            assert(exists|jj: int|
                0 <= jj < q.table.columns.len() && (#[trigger] q.columns[j as int])
                    == q.table.columns[jj]);
            let jj = choose|jj: int|
                0 <= jj < q.table.columns.len() && (#[trigger] q.columns[j as int])
                    == q.table.columns[jj];
            lemma_column_window_in_row(q.table, jj);
        }
        let off = col.offset;
        let sz = col.datatype.size_in_bytes();
        let window: &[u8] = &row[off..off + sz];
        proof {
            assert(window@ =~= col_window(row@, q.columns[j as int]));
        }
        match col.datatype.parse_bytes(window) {
            Err(_) => {
                proof {
                    lemma_project_prefix_fails(q, row@, j as int + 1, m as int);
                }
                return Err(StorageError::CorruptStore);
            },
            Ok(text) => {
                let ghost before = out@;
                out.push((col.name.clone(), text));
                proof {
                    assert(out@.map_values(|c: (String, String)| (c.0@, c.1@)) =~= before.map_values(
                        |c: (String, String)| (c.0@, c.1@),
                    ).push((q.columns[j as int].name, out@[before.len() as int].1@)));
                }
            },
        }
        j = j + 1;
    }
    Ok(out)
}

/// The scan loop: consume the stored bytes one row at a time.
fn execute_scan(data: &[u8], query: &SelectQuery) -> (r: Result<
    Vec<(u64, Vec<(String, String)>)>,
    StorageError,
>)
    requires
        select_query_wf(query@),
    ensures
        match sp_execute(data@, query@) {
            Ok(out) => r matches Ok(v) && result_rows_view(v@) == out,
            Err(_) => r == Err::<Vec<(u64, Vec<(String, String)>)>, StorageError>(
                StorageError::CorruptStore,
            ),
        },
{
    let ghost q = query@;
    proof {
        lemma_row_size_at_least_serial(q.table);
        lemma_wf_has_serial(q.table);
    }
    let row_size = query.table.total_size();
    let id_col = query.table.id_column();
    let ghost si = serial_idx(q.table.columns)->Some_0;
    proof {
        lemma_column_window_in_row(q.table, si);
        assert(q.table.columns[si].datatype == crate::schema::ColumnDataType::SerialId);
        assert(id_col@ == q.table.columns[si]);
    }
    let n = data.len();
    let mut pos: usize = 0;
    let mut out: Vec<(u64, Vec<(String, String)>)> = Vec::new();
    proof {
        assert(result_rows_view(out@) =~= Seq::<(u64, Seq<(Seq<char>, Seq<char>)>)>::empty());
        assert(data@.skip(0) =~= data@);
        match sp_execute(data@, q) {
            Ok(tail) => {
                assert(result_rows_view(out@) + tail =~= tail);
            },
            Err(_) => {
            },
        }
    }
    loop
        invariant
            0 <= pos <= n,
            n == data@.len(),
            q == query@,
            select_query_wf(q),
            row_size == spec_row_size(q.table),
            row_size >= 8,
            serial_idx(q.table.columns) == Some(si),
            id_col@ == q.table.columns[si],
            id_col@.datatype == crate::schema::ColumnDataType::SerialId,
            0 <= id_col@.offset && id_col@.offset + 8 <= row_size,
            ({
                let full = sp_execute(data@, q);
                let rest = sp_execute(data@.skip(pos as int), q);
                match rest {
                    Ok(tail) => full == Ok::<Seq<(u64, Seq<(Seq<char>, Seq<char>)>)>, ()>(
                        result_rows_view(out@) + tail,
                    ),
                    Err(_) => full is Err,
                }
            }),
        decreases n - pos,
    {
        let ghost remaining = data@.skip(pos as int);
        if pos == n {
            proof {
                assert(remaining =~= Seq::<u8>::empty());
                assert(result_rows_view(out@) + Seq::<
                    (u64, Seq<(Seq<char>, Seq<char>)>),
                >::empty() =~= result_rows_view(out@));
            }
            return Ok(out);
        }
        if n - pos < row_size {
            proof {
                assert(remaining.len() < row_size && remaining.len() > 0);
            }
            return Err(StorageError::CorruptStore);
        }
        let row: &[u8] = &data[pos..pos + row_size];
        proof {
            assert(row@ =~= remaining.take(row_size as int));
        }
        let idw: &[u8] = &row[id_col.offset..id_col.offset + 8];
        proof {
            assert(col_window(row@, q.table.columns[si]).take(8) =~= col_window(
                row@,
                q.table.columns[si],
            ));
            assert(idw@ =~= col_window(row@, q.table.columns[si]).take(8));
        }
        let id = u64_from_le_bytes(idw);
        let keep = match eval_predicate(query, row) {
            Err(e) => {
                return Err(e);
            },
            Ok(b) => b,
        };
        if keep {
            let proj = match project_row(query, row) {
                Err(e) => {
                    return Err(e);
                },
                Ok(p) => p,
            };
            let ghost pv = proj@.map_values(|c: (String, String)| (c.0@, c.1@));
            let ghost before = out@;
            out.push((id, proj));
            proof {
                assert(result_rows_view(out@) =~= result_rows_view(before).push((id, pv)));
                assert(remaining.skip(row_size as int) =~= data@.skip(pos as int + row_size));
                match sp_execute(data@.skip(pos as int + row_size), q) {
                    Ok(t2) => {
                        assert(result_rows_view(before) + (seq![(id, pv)] + t2)
                            =~= result_rows_view(out@) + t2);
                    },
                    Err(_) => {
                    },
                }
            }
        } else {
            proof {
                assert(remaining.skip(row_size as int) =~= data@.skip(pos as int + row_size));
            }
        }
        pos = pos + row_size;
    }
}

// ---------------------------------------------------------------------------
// scan-order law
/// Rows numbered consecutively from `base`: row `k` carries serial id
/// `base + k` in its id column.
pub open spec fn rows_numbered_from(rows: Seq<u8>, t: TableDescriptorV, base: u64, n: int) -> bool {
    let rs = spec_row_size(t);
    &&& n >= 0
    &&& base + n <= u64::MAX
    &&& rows.len() == n * rs
    &&& serial_idx(t.columns) matches Some(si) && forall|k: int|
        0 <= k < n ==> col_window(#[trigger] rows.subrange(k * rs, (k + 1) * rs), t.columns[si])
            == vstd::bytes::spec_u64_to_le_bytes((base + k) as u64)
}

/// Scan-order law: over a store whose rows are numbered consecutively, a
/// query with no predicate and no projection returns exactly those `n`
/// rows, in order, with ids `base`, `base + 1`, and so on.
pub proof fn lemma_scan_returns_all_rows(
    rows: Seq<u8>,
    t: TableDescriptorV,
    base: u64,
    n: int,
    q: SelectQueryV,
)
    requires
        table_wf(t),
        rows_numbered_from(rows, t, base, n),
        q.table == t,
        q.columns == Seq::<TableColumnV>::empty(),
        q.where_predicate is None,
    ensures
        sp_execute(rows, q) == Ok::<Seq<(u64, Seq<(Seq<char>, Seq<char>)>)>, ()>(
            Seq::new(n as nat, |k: int| ((base + k) as u64, Seq::empty())),
        ),
    decreases n,
{
    let rs = spec_row_size(t);
    lemma_row_size_at_least_serial(t);
    let si = serial_idx(t.columns)->Some_0;
    vstd::arithmetic::mul::lemma_mul_nonnegative(n, rs);
    if n == 0 {
        assert(rows.len() == 0) by {
            assert(n * rs == 0) by (nonlinear_arith)
                requires
                    n == 0,
            ;
        }
        assert(Seq::new(0, |k: int| ((base + k) as u64, Seq::<(Seq<char>, Seq<char>)>::empty()))
            =~= Seq::<(u64, Seq<(Seq<char>, Seq<char>)>)>::empty());
    } else {
        assert(rows.len() >= rs) by {
            assert(n * rs >= 1 * rs) by (nonlinear_arith)
                requires
                    n >= 1,
                    rs >= 0,
            ;
        }
        let row = rows.take(rs);
        assert(row =~= rows.subrange(0 * rs, (0 + 1) * rs));
        assert(col_window(row, t.columns[si]) == vstd::bytes::spec_u64_to_le_bytes(base));
        let id = spec_u64_from_le_bytes(col_window(row, t.columns[si]).take(8));
        assert(id == base) by {
            vstd::bytes::lemma_auto_spec_u64_to_from_le_bytes();
            assert(col_window(row, t.columns[si]).take(8) =~= col_window(row, t.columns[si]));
        }
        assert(sp_where_holds(sp_conds(q), row, 0) == Ok::<bool, ()>(true));
        assert(sp_project_row(q, row, 0) == Ok::<Seq<(Seq<char>, Seq<char>)>, ()>(Seq::empty()));
        let tail = rows.skip(rs);
        assert(rows_numbered_from(tail, t, (base + 1) as u64, n - 1)) by {
            assert(tail.len() == (n - 1) * rs) by (nonlinear_arith)
                requires
                    tail.len() == rows.len() - rs,
                    rows.len() == n * rs,
            ;
            assert forall|k: int| 0 <= k < n - 1 implies col_window(
                #[trigger] tail.subrange(k * rs, (k + 1) * rs),
                t.columns[si],
            ) == vstd::bytes::spec_u64_to_le_bytes(((base + 1) + k) as u64) by {
                assert(tail.subrange(k * rs, (k + 1) * rs) =~= rows.subrange(
                    (k + 1) * rs,
                    ((k + 1) + 1) * rs,
                )) by {
                    assert((k + 1) * rs == k * rs + rs && ((k + 1) + 1) * rs == (k + 1) * rs + rs)
                        by (nonlinear_arith);
                    vstd::arithmetic::mul::lemma_mul_nonnegative(k, rs);
                    assert((k + 1) * rs <= (n - 1) * rs && ((k + 1) + 1) * rs <= n * rs)
                        by (nonlinear_arith)
                        requires
                            0 <= k < n - 1,
                            rs >= 0,
                    ;
                }
                assert(col_window(rows.subrange((k + 1) * rs, ((k + 1) + 1) * rs), t.columns[si])
                    == vstd::bytes::spec_u64_to_le_bytes((base + (k + 1)) as u64));
            }
        }
        lemma_scan_returns_all_rows(tail, t, (base + 1) as u64, n - 1, q);
        assert(seq![(base, Seq::<(Seq<char>, Seq<char>)>::empty())] + Seq::new(
            (n - 1) as nat,
            |k: int| (((base + 1) + k) as u64, Seq::empty()),
        ) =~= Seq::new(n as nat, |k: int| ((base + k) as u64, Seq::empty())));
    }
}

/// Insertion keeps consecutive numbering: the appended row carries the
/// counter the store assigned it.
pub proof fn lemma_insert_keeps_numbering(
    t: TableDescriptorV,
    vals: Seq<(Seq<char>, Seq<char>)>,
    rows0: Seq<u8>,
    ctr0: u64,
    rows1: Seq<u8>,
    ctr1: u64,
    r: Result<(), StorageError>,
    base: u64,
)
    requires
        table_wf(t),
        insert_outcome(t, vals, rows0, ctr0, rows1, ctr1, r),
        rows_numbered_from(rows0, t, base, ctr0 - base),
        base <= ctr0,
    ensures
        r is Ok ==> rows_numbered_from(rows1, t, base, ctr1 - base),
    decreases 0int,
{
    let rs = spec_row_size(t);
    lemma_row_size_at_least_serial(t);
    lemma_wf_has_serial(t);
    let si = serial_idx(t.columns)->Some_0;
    if r is Ok {
        let b = crate::schema::row_bytes(t.columns, ctr0, vals)->Ok_0;
        crate::schema::lemma_row_bytes_ok_cells(t.columns, ctr0, vals);
        assert(b.len() == rs);
        let n0 = ctr0 - base;
        let n1 = ctr1 - base;
        assert(rows1.len() == n1 * rs) by (nonlinear_arith)
            requires
                rows1.len() == rows0.len() + b.len(),
                rows0.len() == n0 * rs,
                b.len() == rs,
                n1 == n0 + 1,
        ;
        assert forall|k: int| 0 <= k < n1 implies col_window(
            #[trigger] rows1.subrange(k * rs, (k + 1) * rs),
            t.columns[si],
        ) == vstd::bytes::spec_u64_to_le_bytes((base + k) as u64) by {
            vstd::arithmetic::mul::lemma_mul_nonnegative(k, rs);
            assert((k + 1) * rs == k * rs + rs) by (nonlinear_arith);
            if k < n0 {
                assert(k * rs + rs <= n0 * rs) by (nonlinear_arith)
                    requires
                        k + 1 <= n0,
                        rs >= 0,
                ;
                assert(rows1.subrange(k * rs, (k + 1) * rs) =~= rows0.subrange(
                    k * rs,
                    (k + 1) * rs,
                ));
            } else {
                assert(k == n0);
                assert(rows1.subrange(k * rs, (k + 1) * rs) =~= b) by {
                    assert(n0 * rs + rs == (n0 + 1) * rs) by (nonlinear_arith);
                }
                crate::schema::lemma_cells_concat_window(
                    t.columns,
                    ctr0,
                    vals,
                    t.columns.len() as int,
                    si,
                );
                assert(cell_bytes_is_serial(t, ctr0, vals, si));
                assert(col_window(b, t.columns[si]) == crate::schema::cell_bytes(
                    t.columns[si],
                    ctr0,
                    vals,
                )->Some_0);
            }
        }
    }
}

/// The serial column's cell is the little-endian id.
pub open spec fn cell_bytes_is_serial(
    t: TableDescriptorV,
    id: u64,
    vals: Seq<(Seq<char>, Seq<char>)>,
    si: int,
) -> bool {
    crate::schema::cell_bytes(t.columns[si], id, vals) == Some(
        vstd::bytes::spec_u64_to_le_bytes(id),
    )
}

/// A fresh store is trivially numbered: no rows, counter zero.
pub proof fn lemma_fresh_store_numbered(t: TableDescriptorV)
    requires
        table_wf(t),
    ensures
        rows_numbered_from(Seq::<u8>::empty(), t, 0, 0),
{
    lemma_wf_has_serial(t);
    let rs = spec_row_size(t);
    assert(0 * rs == 0) by (nonlinear_arith);
}

/// Row round-trip law: when every supplied value is canonical text for its
/// column, encoding the row succeeds, and reading each supplied column's
/// window back yields exactly the original text.
pub proof fn lemma_insertion_round_trip(
    t: TableDescriptorV,
    id: u64,
    vals: Seq<(Seq<char>, Seq<char>)>,
)
    requires
        table_wf(t),
        forall|i: int|
            0 <= i < t.columns.len() ==> match crate::schema::lookup_value(
                vals,
                (#[trigger] t.columns[i]).name,
            ) {
                Some(txt) => crate::schema::canonical_text(t.columns[i].datatype, txt),
                None => true,
            },
    ensures
        crate::schema::row_bytes(t.columns, id, vals) is Ok,
        forall|i: int|
            0 <= i < t.columns.len() && crate::schema::lookup_value(
                vals,
                (#[trigger] t.columns[i]).name,
            ) is Some ==> t.columns[i].datatype != crate::schema::ColumnDataType::SerialId
                ==> column_text_of_bytes(
                t.columns[i].datatype,
                col_window(crate::schema::row_bytes(t.columns, id, vals)->Ok_0, t.columns[i]),
            ) == Some(
                crate::schema::lookup_value(vals, t.columns[i].name)->Some_0,
            ),
{
    let cols = t.columns;
    assert forall|j: int|
        0 <= j < cols.len() implies crate::schema::cell_bytes(
        #[trigger] cols[j],
        id,
        vals,
    ) is Some by {
        if cols[j].datatype != crate::schema::ColumnDataType::SerialId {
            match crate::schema::lookup_value(vals, cols[j].name) {
                Some(txt) => {
                    crate::schema::lemma_value_round_trip(cols[j].datatype, txt);
                },
                None => {
                },
            }
        }
    }
    crate::schema::lemma_row_bytes_all_ok(cols, id, vals);
    let row = crate::schema::row_bytes(cols, id, vals)->Ok_0;
    assert forall|i: int|
        0 <= i < cols.len() && crate::schema::lookup_value(
            vals,
            (#[trigger] cols[i]).name,
        ) is Some implies cols[i].datatype != crate::schema::ColumnDataType::SerialId
        ==> column_text_of_bytes(cols[i].datatype, col_window(row, cols[i])) == Some(
        crate::schema::lookup_value(vals, cols[i].name)->Some_0,
    ) by {
        if cols[i].datatype != crate::schema::ColumnDataType::SerialId {
            let txt = crate::schema::lookup_value(vals, cols[i].name)->Some_0;
            crate::schema::lemma_cells_concat_window(cols, id, vals, cols.len() as int, i);
            crate::schema::lemma_value_round_trip(cols[i].datatype, txt);
            assert(col_window(row, cols[i]) == crate::schema::cell_bytes(
                cols[i],
                id,
                vals,
            )->Some_0);
        }
    }
}

/// A reopened table file reads back the id counter the store left in its
/// header: the next insertion continues where the last run stopped.
pub proof fn lemma_reopen_reads_counter(img: Seq<u8>, ctr: u64)
    requires
        img.len() >= 64,
        img.take(8) == vstd::bytes::spec_u64_to_le_bytes(ctr),
    ensures
        spec_u64_from_le_bytes(img.take(8)) == ctr,
{
    vstd::bytes::lemma_auto_spec_u64_to_from_le_bytes();
}

} // verus!
