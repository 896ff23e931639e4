//! The table: rows appended to pages, and read back by index.

use crate::codec::{copy_range, overlay, write_range};
use crate::error::StorageError;
use crate::pager::{lemma_read_keeps_content, opened_pager, Pager, PagerView};
use crate::row::{decodable, decoded, encoded, storable, Row, RowView, ROW_SIZE};
use vstd::prelude::*;

verus! {

/// Number of rows that fit a page.
pub const ROWS_PER_PAGE: usize = 14;

/// Number of rows that fit the table.
pub const TABLE_MAX_ROWS: usize = 1400;

/// The page that holds row `index`.
pub open spec fn row_page(index: int) -> int {
    index / 14
}

/// Where row `index` starts in its page.
pub open spec fn row_offset(index: int) -> int {
    (index % 14) * 292
}

/// The bytes of row `index` in `page`, the page that holds it.
pub open spec fn row_slot(page: Seq<u8>, index: int) -> Seq<u8> {
    page.subrange(row_offset(index), row_offset(index) + 292)
}

/// The row count that a table starts with when all that is known is the
/// number of whole pages in its image.
pub open spec fn guessed_rows(num_pages: nat) -> nat {
    if num_pages == 0 {
        0
    } else if num_pages == 1 {
        1
    } else {
        1000
    }
}

/// A table freshly opened over `image`, with `num_row` rows.
pub open spec fn opened(image: Seq<u8>, num_row: nat) -> TableView {
    TableView { pager: opened_pager(image), num_row }
}

/// A table after `close`: every page below the pager's high-water mark was
/// flushed to the image.
pub open spec fn closed(table: TableView) -> TableView {
    TableView { pager: table.pager.after_close(), ..table }
}

/// A table after `rows` were appended, in order.
pub open spec fn appended(table: TableView, rows: Seq<RowView>) -> TableView
    decreases rows.len(),
{
    if rows.len() == 0 {
        table
    } else {
        appended(table, rows.drop_last()).after_insert(encoded(rows.last()))
    }
}

/// The table: a pager and the number of rows appended so far.
pub struct Table {
    pub pager: Pager,
    pub num_row: usize,
}

/// A table as plain values.
pub struct TableView {
    pub pager: PagerView,
    pub num_row: nat,
}

impl View for Table {
    type V = TableView;

    open spec fn view(&self) -> TableView {
        TableView { pager: self.pager@, num_row: self.num_row as nat }
    }
}

impl TableView {
    /// The pager is well formed.
    pub open spec fn wf(self) -> bool {
        self.pager.wf()
    }

    /// The bytes in the slot of row `index`, as a reader gets them.
    pub open spec fn row_bytes(self, index: int) -> Seq<u8> {
        row_slot(self.pager.read_content(row_page(index)), index)
    }

    /// What reading row `index` gives.
    pub open spec fn read_result(self, index: int) -> Result<RowView, StorageError> {
        if index >= self.num_row {
            Err(StorageError::OutOfRange)
        } else if row_page(index) >= 100 {
            Err(StorageError::CapacityExceeded)
        } else if !decodable(self.row_bytes(index)) {
            Err(StorageError::CorruptRecord)
        } else {
            Ok(decoded(self.row_bytes(index)))
        }
    }

    /// The pager after row `index` was read.
    pub open spec fn pager_after_read(self, index: int) -> PagerView {
        if index < self.num_row && row_page(index) < 100 {
            self.pager.after_read(row_page(index))
        } else {
            self.pager
        }
    }

    /// What scanning the first `n` rows gives: the rows in order, or the
    /// error of the first row that cannot be read.
    pub open spec fn scanned(self, n: nat) -> Result<Seq<RowView>, StorageError>
        decreases n,
    {
        if n == 0 {
            Ok(Seq::empty())
        } else {
            match self.scanned((n - 1) as nat) {
                Err(e) => Err(e),
                Ok(rows) => match self.read_result(n - 1) {
                    Ok(row) => Ok(rows.push(row)),
                    Err(e) => Err(e),
                },
            }
        }
    }

    /// The pager after the first `n` rows were scanned: each row up to the
    /// first that cannot be read was read, that one included.
    pub open spec fn pager_after_scan(self, n: nat) -> PagerView
        decreases n,
    {
        if n == 0 {
            self.pager
        } else if self.scanned((n - 1) as nat) is Err {
            self.pager_after_scan((n - 1) as nat)
        } else {
            (TableView { pager: self.pager_after_scan((n - 1) as nat), ..self }).pager_after_read(
                n - 1,
            )
        }
    }

    /// The table after a row with the binary form `bytes` was appended.
    pub open spec fn after_insert(self, bytes: Seq<u8>) -> TableView {
        let page = row_page(self.num_row as int);
        TableView {
            pager: self.pager.after_write(
                page,
                overlay(self.pager.write_content(page), row_offset(self.num_row as int), bytes),
            ),
            num_row: self.num_row + 1,
        }
    }
}

/// Where row `index` starts in its page.
pub fn slot_offset(index: usize) -> (offset: usize)
    ensures
        offset == row_offset(index as int),
        offset + ROW_SIZE <= 4096,
{
    let in_page: usize = index % ROWS_PER_PAGE;
    in_page * ROW_SIZE
}

/// Once a scan has failed it stays failed, with the same error, and reads
/// no further row.
pub proof fn lemma_scanned_stops(table: TableView, n: nat, m: nat)
    requires
        n <= m,
        table.scanned(n) is Err,
    ensures
        table.scanned(m) == table.scanned(n),
        table.pager_after_scan(m) == table.pager_after_scan(n),
    decreases m,
{
    if n < m {
        lemma_scanned_stops(table, n, (m - 1) as nat);
    }
}

/// A scan succeeds exactly where every row can be read, and then holds
/// what reading each row gives, in order.
pub proof fn lemma_scanned_rows(table: TableView, n: nat)
    ensures
        table.scanned(n) is Ok <==> forall|i: int|
            0 <= i < n ==> (#[trigger] table.read_result(i)) is Ok,
        table.scanned(n) is Ok ==> table.scanned(n)->Ok_0.len() == n && forall|i: int|
            0 <= i < n ==> #[trigger] table.scanned(n)->Ok_0[i] == table.read_result(i)->Ok_0,
    decreases n,
{
    if n > 0 {
        lemma_scanned_rows(table, (n - 1) as nat);
        if table.scanned((n - 1) as nat) is Ok {
            assert(table.scanned(n) is Ok <==> table.read_result(n - 1) is Ok);
        }
    }
}

/// Row `index` lies on page `index / 14`: page `k` holds the rows from
/// `14 * k` up to `14 * k + 13`, so an append reaches page `k` only when
/// the fourteen slots of page `k - 1` are taken, and the slots of two
/// rows on one page do not overlap.
pub proof fn lemma_row_placement(index: nat, k: nat)
    ensures
        row_page(index as int) == k <==> 14 * k <= index < 14 * (k + 1),
        0 <= row_offset(index as int) && row_offset(index as int) + 292 <= 4096,
        row_offset(index as int) == (index - 14 * row_page(index as int)) * 292,
{
}

/// The bytes of row `row_num` in `page`, the page that holds it.
pub fn return_cursor_value(page: &Vec<u8>, cell_num: usize, row_num: u32) -> (bytes: Vec<u8>)
    requires
        page@.len() == 4096,
    ensures
        bytes@ == row_slot(page@, row_num as int),
{
    let row_offset: usize = slot_offset(row_num as usize);
    copy_range(page, row_offset, row_offset + ROW_SIZE)
}

impl Table {
    /// Opens a table over the bytes of a backing file. The row count is not
    /// stored in the file: it is guessed from the number of whole pages.
    pub fn new(image: Vec<u8>) -> (table: Table)
        ensures
            table@.wf(),
            table@ == opened(image@, guessed_rows(image@.len() / 4096)),
    {
        let pager = Pager::new(image);
        let num_row: usize = if pager.num_pages == 0 {
            0
        } else if pager.num_pages == 1 {
            1
        } else {
            1000
        };
        Table { pager, num_row }
    }

    /// Opens a table over the bytes of a backing file that is known to hold
    /// `num_row` rows.
    pub fn open(image: Vec<u8>, num_row: usize) -> (table: Table)
        ensures
            table@.wf(),
            table@ == opened(image@, num_row as nat),
    {
        let pager = Pager::new(image);
        Table { pager, num_row }
    }

    /// A cursor on the first row; at the end at once where the table is empty.
    pub fn table_start(&mut self) -> (cursor: Cursor<'_>)
        ensures
            cursor.position() == started(old(self)@.num_row),
            *cursor.table == *old(self),
            *final(self) == *final(cursor.table),
    {
        let end_of_table = self.num_row == 0;
        Cursor { table: self, row_num: 0, end_of_table }
    }

    /// Flushes every page below the pager's high-water mark to the image.
    pub fn close(&mut self)
        requires
            old(self)@.wf(),
        ensures
            final(self)@.wf(),
            final(self)@ == closed(old(self)@),
    {
        self.pager.close();
    }

    /// Appends `row`. Fails with `CapacityExceeded` exactly where the table
    /// is full, and then changes nothing.
    pub fn insert_row(&mut self, row: Row) -> (r: Result<(), StorageError>)
        requires
            old(self)@.wf(),
            storable(row@),
        ensures
            final(self)@.wf(),
            r is Ok <==> old(self).num_row < TABLE_MAX_ROWS,
            r is Ok ==> final(self)@ == old(self)@.after_insert(encoded(row@)),
            r is Err ==> r->Err_0 == StorageError::CapacityExceeded && final(self)@ == old(
                self,
            )@,
    {
        let bytes = row.serialize();
        let page_index = self.num_row / ROWS_PER_PAGE;
        let row_index = slot_offset(self.num_row);
        match self.pager.page_to_write(page_index) {
            Ok(page) => {
                write_range(page, row_index, &bytes);
            },
            Err(e) => {
                return Err(e);
            },
        }
        self.num_row += 1;
        Ok(())
    }

    /// Every row, in order, by reading one after the other. Fails with the
    /// error of the first row that cannot be read. The pages that it read
    /// are then resident; what any page holds is as before.
    pub fn scan(&mut self) -> (r: Result<Vec<Row>, StorageError>)
        requires
            old(self)@.wf(),
        ensures
            final(self)@.wf(),
            final(self)@.num_row == old(self)@.num_row,
            final(self)@.pager == old(self)@.pager_after_scan(old(self)@.num_row),
            final(self)@.pager.image == old(self)@.pager.image,
            final(self)@.pager.num_pages == old(self)@.pager.num_pages,
            forall|p: int|
                0 <= p < 100 ==> #[trigger] final(self)@.pager.read_content(p) == old(
                    self,
                )@.pager.read_content(p),
            r is Ok <==> old(self)@.scanned(old(self)@.num_row) is Ok,
            r is Ok ==> r->Ok_0@.len() == old(self)@.num_row && forall|i: int|
                0 <= i < old(self)@.num_row ==> (#[trigger] r->Ok_0@[i])@ == old(self)@.scanned(
                    old(self)@.num_row,
                )->Ok_0[i],
            r is Err ==> old(self)@.scanned(old(self)@.num_row) == Err::<Seq<RowView>, _>(
                r->Err_0,
            ),
    {
        let mut rows: Vec<Row> = Vec::new();
        let mut i: usize = 0;
        let ghost start = self@;
        while i < self.num_row
            invariant
                i <= self.num_row,
                self@.wf(),
                start == old(self)@,
                self@.num_row == start.num_row,
                self@.pager == start.pager_after_scan(i as nat),
                self@.pager.image == start.pager.image,
                self@.pager.num_pages == start.pager.num_pages,
                forall|p: int|
                    0 <= p < 100 ==> #[trigger] self@.pager.read_content(p)
                        == start.pager.read_content(p),
                start.scanned(i as nat) is Ok,
                start.scanned(i as nat)->Ok_0.len() == i,
                rows@.len() == i,
                forall|j: int|
                    0 <= j < i ==> (#[trigger] rows@[j])@ == start.scanned(i as nat)->Ok_0[j],
            decreases self.num_row - i,
        {
            let ghost before = self@;
            proof {
                assert(row_page(i as int) < 100 ==> before.pager.read_content(row_page(i as int))
                    == start.pager.read_content(row_page(i as int)));
                assert(before.read_result(i as int) == start.read_result(i as int));
                assert(start.scanned((i + 1) as nat) == match start.read_result(i as int) {
                    Ok(row) => Ok::<Seq<RowView>, StorageError>(
                        start.scanned(i as nat)->Ok_0.push(row),
                    ),
                    Err(e) => Err(e),
                });
                assert(start.pager_after_scan((i + 1) as nat) == before.pager_after_read(i as int));
                if start.read_result(i as int) is Err {
                    lemma_scanned_stops(start, (i + 1) as nat, start.num_row);
                }
                if row_page(i as int) < 100 {
                    lemma_read_keeps_content(before.pager, row_page(i as int));
                }
            }
            match self.read_row(i) {
                Ok(row) => {
                    rows.push(row);
                },
                Err(e) => {
                    return Err(e);
                },
            }
            i += 1;
        }
        Ok(rows)
    }

    /// Reads row `num_row`. Fails with `OutOfRange` where the table has no
    /// such row, with `CapacityExceeded` where its page is beyond the cache,
    /// and with `CorruptRecord` where its bytes do not decode.
    pub fn read_row(&mut self, num_row: usize) -> (r: Result<Row, StorageError>)
        requires
            old(self)@.wf(),
        ensures
            final(self)@.wf(),
            r is Ok <==> old(self)@.read_result(num_row as int) is Ok,
            r is Ok ==> r->Ok_0@ == old(self)@.read_result(num_row as int)->Ok_0,
            r is Err ==> r->Err_0 == old(self)@.read_result(num_row as int)->Err_0,
            final(self)@.pager == old(self)@.pager_after_read(num_row as int),
            final(self)@.num_row == old(self)@.num_row,
    {
        if num_row >= self.num_row {
            return Err(StorageError::OutOfRange);
        }
        let page_index = num_row / ROWS_PER_PAGE;
        let row_index = slot_offset(num_row);
        let bytes = match self.pager.page_to_read(page_index) {
            Ok(page) => copy_range(page, row_index, row_index + ROW_SIZE),
            Err(e) => {
                return Err(e);
            },
        };
        Row::deserialize(bytes)
    }
}

/// A cursor over a table's rows, from the first one on.
pub struct Cursor<'a> {
    pub table: &'a mut Table,
    pub row_num: usize,
    pub end_of_table: bool,
}

/// A cursor's position as plain values.
pub struct CursorView {
    pub row_num: nat,
    pub num_row: nat,
    pub end_of_table: bool,
}

/// The cursor that a table of `num_row` rows starts with.
pub open spec fn started(num_row: nat) -> CursorView {
    CursorView { row_num: 0, num_row, end_of_table: num_row == 0 }
}

/// The cursor one step on; a cursor at the end stays where it is.
pub open spec fn advanced(c: CursorView) -> CursorView {
    if c.end_of_table {
        c
    } else {
        CursorView { row_num: c.row_num + 1, end_of_table: c.row_num + 1 >= c.num_row, ..c }
    }
}

/// The cursor `steps` steps on.
pub open spec fn advanced_by(c: CursorView, steps: nat) -> CursorView
    decreases steps,
{
    if steps == 0 {
        c
    } else {
        advanced(advanced_by(c, (steps - 1) as nat))
    }
}

/// A cursor advanced from the start of a table is on the row of that
/// number until it has passed the last row; it is at the end exactly from
/// the step on that equals the number of rows, and stays there.
pub proof fn lemma_cursor_reaches_end(num_row: nat, steps: nat)
    ensures
        advanced_by(started(num_row), steps).num_row == num_row,
        advanced_by(started(num_row), steps).row_num == if steps <= num_row {
            steps
        } else {
            num_row
        },
        advanced_by(started(num_row), steps).end_of_table == (steps >= num_row),
    decreases steps,
{
    if steps > 0 {
        lemma_cursor_reaches_end(num_row, (steps - 1) as nat);
    }
}

impl<'a> Cursor<'a> {
    /// The table that the cursor is on, as plain values.
    pub open spec fn table_view(&self) -> TableView {
        TableView { pager: self.table.pager@, num_row: self.table.num_row as nat }
    }

    /// The cursor's position, as plain values.
    pub open spec fn position(&self) -> CursorView {
        CursorView {
            row_num: self.row_num as nat,
            num_row: self.table.num_row as nat,
            end_of_table: self.end_of_table,
        }
    }

    /// The table is well formed, and the cursor is at the end exactly where
    /// it is past the last row.
    pub open spec fn wf(&self) -> bool {
        &&& self.table_view().wf()
        &&& self.end_of_table == (self.row_num >= self.table.num_row)
    }

    /// A fresh cursor on the first row of the same table.
    pub fn end_of_table(&mut self) -> (cursor: Cursor<'_>)
        ensures
            cursor.position() == started(old(self).table_view().num_row),
            cursor.table_view() == old(self).table_view(),
            final(self).row_num == old(self).row_num,
            final(self).end_of_table == old(self).end_of_table,
            *final(self).table == *final(cursor.table),
    {
        let end_of_table = self.table.num_row == 0;
        Cursor { table: &mut *self.table, row_num: 0, end_of_table }
    }

    /// Whether the table is empty.
    pub fn is_end_of_table(&self) -> (r: bool)
        ensures
            r == (self.table_view().num_row == 0),
    {
        self.table.num_row == 0
    }

    /// Whether the cursor is past the last row.
    pub fn table_end(&self) -> (r: bool)
        ensures
            r == (self.row_num >= self.table_view().num_row),
    {
        self.row_num >= self.table.num_row
    }

    /// Moves the cursor one row on; at the end it stays where it is.
    pub fn cursor_advance(&mut self)
        requires
            old(self).wf(),
        ensures
            final(self).wf(),
            final(self).position() == advanced(old(self).position()),
            final(self).table_view() == old(self).table_view(),
    {
        if self.end_of_table {
            return ;
        }
        self.row_num += 1;
        self.end_of_table = self.table_end();
    }

    /// The bytes of the row that the cursor is on. Fails with `OutOfRange`
    /// at the end of the table, and with `CapacityExceeded` where the row's
    /// page is beyond the cache.
    pub fn cursor_value(&mut self) -> (r: Result<Vec<u8>, StorageError>)
        requires
            old(self).wf(),
        ensures
            final(self).wf(),
            final(self).position() == old(self).position(),
            final(self).table_view().pager == old(self).table_view().pager_after_read(
                old(self).row_num as int,
            ),
            r is Ok <==> !old(self).end_of_table && row_page(old(self).row_num as int) < 100,
            r is Ok ==> r->Ok_0@ == old(self).table_view().row_bytes(old(self).row_num as int),
            r is Err ==> r->Err_0 == if old(self).end_of_table {
                StorageError::OutOfRange
            } else {
                StorageError::CapacityExceeded
            },
    {
        if self.end_of_table {
            return Err(StorageError::OutOfRange);
        }
        let page_num = self.row_num / ROWS_PER_PAGE;
        let row_num = self.row_num;
        match self.table.pager.page_to_read(page_num) {
            Ok(page) => Ok(return_cursor_value(page, page_num, row_num as u32)),
            Err(e) => Err(e),
        }
    }

    /// The row that the cursor is on. Fails as `cursor_value` does, and with
    /// `CorruptRecord` where the row's bytes do not decode.
    pub fn get_row(&mut self) -> (r: Result<Row, StorageError>)
        requires
            old(self).wf(),
        ensures
            final(self).wf(),
            final(self).position() == old(self).position(),
            final(self).table_view().pager == old(self).table_view().pager_after_read(
                old(self).row_num as int,
            ),
            r is Ok <==> old(self).table_view().read_result(old(self).row_num as int) is Ok,
            r is Ok ==> r->Ok_0@ == old(self).table_view().read_result(
                old(self).row_num as int,
            )->Ok_0,
            r is Err ==> r->Err_0 == old(self).table_view().read_result(
                old(self).row_num as int,
            )->Err_0,
    {
        match self.cursor_value() {
            Ok(value) => Row::deserialize(value),
            Err(e) => Err(e),
        }
    }
}

} // verus!
