//! What a table holds after rows were appended to an empty one, and after
//! it was closed and opened again.

use crate::codec::{be_bytes, overlay};
use crate::pager::{lemma_flushes, opened_pager, stored_page, PagerView};
use crate::error::StorageError;
use crate::row::{encoded, lemma_round_trip, storable, zero_free, RowView};
use crate::table::{
    appended, closed, guessed_rows, lemma_scanned_rows, opened, row_offset, row_page, row_slot, TableView,
};
use vstd::prelude::*;

verus! {

/// Whether `table` is what appending `rows` to an empty table gives: the
/// image is still empty, exactly the pages that hold a row are resident,
/// and each row's slot holds its serialized form.
pub open spec fn filled(table: TableView, rows: Seq<RowView>) -> bool {
    &&& table.num_row == rows.len()
    &&& table.pager.wf()
    &&& table.pager.image.len() == 0
    &&& table.pager.num_pages == (rows.len() + 13) / 14
    &&& forall|p: int|
        0 <= p < 100 ==> (#[trigger] table.pager.resident(p) <==> p < (rows.len() + 13) / 14)
    &&& forall|i: int|
        0 <= i < rows.len() ==> row_slot(table.pager.cache[row_page(i)]->0, i) == encoded(
            #[trigger] rows[i],
        )
}

/// The serialized form of a row that fits its fields has the size of a slot.
pub proof fn lemma_encoded_len(row: RowView)
    ensures
        encoded(row).len() == 292,
{
    assert(be_bytes(row.id).len() == 4);
}

/// Writing a slot leaves the other slots of the page as they were, and
/// puts the bytes into that one.
pub proof fn lemma_slot_overlay(page: Seq<u8>, index: int, bytes: Seq<u8>, other: int)
    requires
        page.len() == 4096,
        bytes.len() == 292,
        0 <= index,
        0 <= other,
    ensures
        row_slot(overlay(page, row_offset(index), bytes), index) == bytes,
        other % 14 != index % 14 ==> row_slot(overlay(page, row_offset(index), bytes), other)
            == row_slot(page, other),
{
    let after = overlay(page, row_offset(index), bytes);
    assert(row_slot(after, index) =~= bytes);
    if other % 14 != index % 14 {
        assert(row_slot(after, other) =~= row_slot(page, other));
    }
}

/// Appending up to 1400 rows that fit their fields to an empty table fills
/// the pages in order, each row in the slot of its index.
pub proof fn lemma_appended_filled(rows: Seq<RowView>)
    requires
        rows.len() <= 1400,
        forall|i: int| 0 <= i < rows.len() ==> storable(#[trigger] rows[i]),
    ensures
        filled(appended(opened(Seq::empty(), 0), rows), rows),
    decreases rows.len(),
{
    let start = opened(Seq::empty(), 0);
    if rows.len() > 0 {
        let front = rows.drop_last();
        assert forall|i: int| 0 <= i < front.len() implies storable(#[trigger] front[i]) by {
            assert(front[i] == rows[i]);
        }
        lemma_appended_filled(front);
        let prev = appended(start, front);
        let m = front.len() as int;
        let bytes = encoded(rows.last());
        lemma_encoded_len(rows.last());
        let page = row_page(m);
        let base = prev.pager.write_content(page);
        let written = overlay(base, row_offset(m), bytes);
        let after = prev.after_insert(bytes);
        assert(after == appended(start, rows));
        assert(base.len() == 4096);
        assert(after.pager.cache[page] == Some(written));
        assert forall|i: int| 0 <= i < rows.len() implies row_slot(
            after.pager.cache[row_page(i)]->0,
            i,
        ) == encoded(#[trigger] rows[i]) by {
            lemma_slot_overlay(base, m, bytes, i);
            if i < m {
                assert(front[i] == rows[i]);
                if row_page(i) == page {
                    assert(prev.pager.resident(page));
                }
            }
        }
        assert(after.pager.wf());
        assert forall|p: int| 0 <= p < 100 implies (#[trigger] after.pager.resident(p) <==> p < (
        rows.len() + 13) / 14) by {
            assert(prev.pager.resident(p) <==> p < (front.len() + 13) / 14);
        }
    } else {
        assert(start.pager.wf());
    }
}

/// Rows appended to an empty table are scanned back in the order in which
/// they were appended. After the table was closed, a table opened over its
/// image with the same row count scans the same rows in the same order.
pub proof fn lemma_rows_persist(rows: Seq<RowView>)
    requires
        rows.len() <= 1400,
        forall|i: int| 0 <= i < rows.len() ==> storable(#[trigger] rows[i]) && zero_free(rows[i]),
    ensures
        appended(opened(Seq::empty(), 0), rows).scanned(rows.len()) == Ok::<
            Seq<RowView>,
            StorageError,
        >(rows),
        opened(
            closed(appended(opened(Seq::empty(), 0), rows)).pager.image,
            rows.len(),
        ).scanned(rows.len()) == Ok::<Seq<RowView>, StorageError>(rows),
{
    let table = appended(opened(Seq::empty(), 0), rows);
    lemma_appended_filled(rows);
    lemma_flushes(table.pager, table.pager.num_pages);
    let again = opened(closed(table).pager.image, rows.len());
    assert forall|i: int| 0 <= i < rows.len() implies #[trigger] table.read_result(i) == Ok::<
        RowView,
        StorageError,
    >(rows[i]) && again.read_result(i) == table.read_result(i) by {
        lemma_round_trip(rows[i]);
        let p = row_page(i);
        assert(table.pager.resident(p));
        assert(table.row_bytes(i) == encoded(rows[i]));
        assert(!again.pager.resident(p));
        assert(stored_page(again.pager.image, p) == table.pager.cache[p]->0);
        assert(again.row_bytes(i) == encoded(rows[i]));
    }
    assert forall|i: int| 0 <= i < rows.len() implies #[trigger] again.read_result(i) == Ok::<
        RowView,
        StorageError,
    >(rows[i]) by {
        assert(again.read_result(i) == table.read_result(i));
    }
    lemma_scanned_rows(table, rows.len());
    lemma_scanned_rows(again, rows.len());
    assert(table.scanned(rows.len())->Ok_0 =~= rows);
    assert(again.scanned(rows.len())->Ok_0 =~= rows);
}

/// After rows were appended to an empty table and the table was closed,
/// the image is as long as the pages that hold a row. The row count that
/// is guessed from it is the number of the rows exactly where that is 0, 1
/// or 1000: only then does a table opened without a row count scan the
/// rows that were appended.
pub proof fn lemma_guessed_row_count(rows: Seq<RowView>)
    requires
        rows.len() <= 1400,
        forall|i: int| 0 <= i < rows.len() ==> storable(#[trigger] rows[i]),
    ensures
        closed(appended(opened(Seq::empty(), 0), rows)).pager.image.len() == ((rows.len() + 13)
            / 14) * 4096,
        guessed_rows(closed(appended(opened(Seq::empty(), 0), rows)).pager.image.len() / 4096)
            == rows.len() <==> rows.len() == 0 || rows.len() == 1 || rows.len() == 1000,
{
    let table = appended(opened(Seq::empty(), 0), rows);
    lemma_appended_filled(rows);
    lemma_flushes(table.pager, table.pager.num_pages);
    let pages = (rows.len() + 13) / 14;
    if pages > 0 {
        assert(table.pager.resident(pages - 1));
        assert(closed(table).pager.resident(pages - 1));
    }
}

/// A pager opened over the image of a closed pager reads every page as
/// the closed pager did, but for a page that was resident at or above the
/// high-water mark, which `close` does not flush.
pub proof fn lemma_reopened_pages(pager: PagerView, page: int)
    requires
        pager.wf(),
        0 <= page,
        page < pager.num_pages || !pager.resident(page),
    ensures
        opened_pager(pager.after_close().image).read_content(page) == pager.read_content(page),
{
    lemma_flushes(pager, pager.num_pages);
}

/// A table opened over the image of a closed table, with the same row
/// count, reads each row whose page is below the high-water mark as the
/// closed table did.
pub proof fn lemma_reopened_rows(table: TableView, index: int)
    requires
        table.wf(),
        0 <= index,
        row_page(index) < table.pager.num_pages,
    ensures
        opened(closed(table).pager.image, table.num_row).read_result(index) == table.read_result(
            index,
        ),
{
    lemma_reopened_pages(table.pager, row_page(index));
}

/// After an append the new row's slot holds its bytes. Any other row is as
/// it was; a row on the same page, only where the writer got that page as
/// a reader would have.
pub proof fn lemma_append_keeps_rows(table: TableView, bytes: Seq<u8>, other: int)
    requires
        table.wf(),
        table.num_row < 1400,
        bytes.len() == 292,
        0 <= other,
        other != table.num_row,
    ensures
        table.after_insert(bytes).row_bytes(table.num_row as int) == bytes,
        row_page(other) != row_page(table.num_row as int) || table.pager.write_content(
            row_page(other),
        ) == table.pager.read_content(row_page(other)) ==> table.after_insert(bytes).row_bytes(
            other,
        ) == table.row_bytes(other),
{
    let page = row_page(table.num_row as int);
    let base = table.pager.write_content(page);
    assert(base.len() == 4096);
    lemma_slot_overlay(base, table.num_row as int, bytes, other);
}

} // verus!
