use pagestore::error::StorageError;
use pagestore::row::Row;
use pagestore::table::{return_cursor_value, slot_offset, Table, ROWS_PER_PAGE, TABLE_MAX_ROWS};

fn row(id: u32, username: &str, email: &str) -> Row {
    Row { id, username: username.to_string(), email: email.to_string() }
}

fn numbered(i: u32) -> Row {
    row(i, &format!("user{}", i), &format!("user{}@x.com", i))
}

#[test]
fn two_rows_are_read_scanned_and_persisted() {
    let alice = row(1, "alice", "alice@x.com");
    let bob = row(2, "bob", "bob@x.com");
    let mut t = Table::new(Vec::new());
    assert_eq!(t.num_row, 0);
    assert_eq!(t.insert_row(alice.clone()), Ok(()));
    assert_eq!(t.insert_row(bob.clone()), Ok(()));
    assert_eq!(t.read_row(0), Ok(alice.clone()));
    assert_eq!(t.read_row(1), Ok(bob.clone()));
    assert_eq!(t.scan(), Ok(vec![alice.clone(), bob.clone()]));
    t.close();
    let image = t.pager.image.clone();
    assert_eq!(image.len(), 4096);
    let mut again = Table::open(image, 2);
    assert_eq!(again.read_row(0), Ok(alice.clone()));
    assert_eq!(again.read_row(1), Ok(bob.clone()));
    assert_eq!(again.scan(), Ok(vec![alice, bob]));
}

#[test]
fn new_guesses_row_count_from_whole_pages() {
    assert_eq!(Table::new(Vec::new()).num_row, 0);
    assert_eq!(Table::new(vec![0u8; 4095]).num_row, 0);
    assert_eq!(Table::new(vec![0u8; 4096]).num_row, 1);
    assert_eq!(Table::new(vec![0u8; 5000]).num_row, 1);
    assert_eq!(Table::new(vec![0u8; 8192]).num_row, 1000);
}

#[test]
fn one_row_survives_reopening_by_guess() {
    let alice = row(1, "alice", "alice@x.com");
    let mut t = Table::new(Vec::new());
    t.insert_row(alice.clone()).unwrap();
    t.close();
    let mut again = Table::new(t.pager.image.clone());
    assert_eq!(again.num_row, 1);
    assert_eq!(again.scan(), Ok(vec![alice]));
}

#[test]
fn rows_fill_a_page_before_the_next_is_touched() {
    let mut t = Table::new(Vec::new());
    for i in 0..14u32 {
        t.insert_row(numbered(i)).unwrap();
    }
    assert_eq!(ROWS_PER_PAGE, 14);
    assert_eq!(t.pager.num_pages, 1);
    assert!(t.pager.pages[0].is_some());
    assert!(t.pager.pages[1].is_none());
    t.insert_row(numbered(14)).unwrap();
    assert_eq!(t.pager.num_pages, 2);
    let page1 = t.pager.pages[1].clone().unwrap();
    assert_eq!(&page1[0..292], numbered(14).serialize().as_slice());
    assert!(page1[292..].iter().all(|b| *b == 0));
    let page0 = t.pager.pages[0].clone().unwrap();
    assert_eq!(&page0[13 * 292..14 * 292], numbered(13).serialize().as_slice());
    assert_eq!(&page0[3 * 292..4 * 292], numbered(3).serialize().as_slice());
    assert!(page0[14 * 292..].iter().all(|b| *b == 0));
}

#[test]
fn slot_offset_is_position_in_page_times_row_size() {
    assert_eq!(slot_offset(0), 0);
    assert_eq!(slot_offset(1), 292);
    assert_eq!(slot_offset(13), 3796);
    assert_eq!(slot_offset(14), 0);
    assert_eq!(slot_offset(31), 876);
}

#[test]
fn thirty_rows_persist_in_order() {
    let rows: Vec<Row> = (0..30u32).map(numbered).collect();
    let mut t = Table::new(Vec::new());
    for r in rows.iter() {
        t.insert_row(r.clone()).unwrap();
    }
    t.close();
    assert_eq!(t.pager.image.len(), 3 * 4096);
    let mut again = Table::open(t.pager.image.clone(), 30);
    assert_eq!(again.scan(), Ok(rows.clone()));
    assert_eq!(again.read_row(29), Ok(rows[29].clone()));
}

#[test]
fn closing_table_twice_changes_nothing_more() {
    let mut t = Table::new(Vec::new());
    for i in 0..20u32 {
        t.insert_row(numbered(i)).unwrap();
    }
    t.close();
    let once = t.pager.image.clone();
    t.close();
    assert_eq!(t.pager.image, once);
    assert_eq!(t.num_row, 20);
}

#[test]
fn full_table_rejects_insert() {
    let mut t = Table::new(Vec::new());
    for i in 0..1400u32 {
        assert_eq!(t.insert_row(numbered(i)), Ok(()));
    }
    assert_eq!(TABLE_MAX_ROWS, 1400);
    assert_eq!(t.num_row, 1400);
    assert_eq!(t.insert_row(numbered(1400)), Err(StorageError::CapacityExceeded));
    assert_eq!(t.num_row, 1400);
    assert_eq!(t.pager.num_pages, 100);
    assert_eq!(t.read_row(1399), Ok(numbered(1399)));
}

#[test]
fn reading_past_the_last_row_is_out_of_range() {
    let mut t = Table::new(Vec::new());
    assert_eq!(t.read_row(0), Err(StorageError::OutOfRange));
    t.insert_row(numbered(0)).unwrap();
    assert_eq!(t.read_row(0), Ok(numbered(0)));
    assert_eq!(t.read_row(1), Err(StorageError::OutOfRange));
}

#[test]
fn row_count_beyond_the_cache_is_capacity_exceeded() {
    let mut t = Table::open(Vec::new(), 2000);
    assert_eq!(t.read_row(1400), Err(StorageError::CapacityExceeded));
    assert_eq!(t.read_row(1399), Ok(Row { id: 0, username: String::new(), email: String::new() }));
}

#[test]
fn corrupt_row_fails_read_and_scan() {
    let mut image = vec![0u8; 4096];
    image[292 + 4] = 0xff;
    let mut t = Table::open(image, 2);
    assert_eq!(t.read_row(0), Ok(row(0, "", "")));
    assert_eq!(t.read_row(1), Err(StorageError::CorruptRecord));
    assert_eq!(t.scan(), Err(StorageError::CorruptRecord));
}

#[test]
fn scan_of_empty_table_is_empty() {
    let mut t = Table::new(Vec::new());
    assert_eq!(t.scan(), Ok(Vec::new()));
}

#[test]
fn return_cursor_value_cuts_the_rows_slot() {
    let mut page = vec![0u8; 4096];
    let bytes = numbered(5).serialize();
    page[5 * 292..6 * 292].copy_from_slice(&bytes);
    assert_eq!(return_cursor_value(&page, 0, 5), bytes);
    assert_eq!(return_cursor_value(&page, 1, 19), bytes);
    assert_eq!(return_cursor_value(&page, 0, 4), vec![0u8; 292]);
}

#[test]
fn cursor_on_empty_table_is_at_end() {
    let mut t = Table::new(Vec::new());
    let mut c = t.table_start();
    assert!(c.end_of_table);
    assert!(c.is_end_of_table());
    assert!(c.table_end());
    assert_eq!(c.cursor_value(), Err(StorageError::OutOfRange));
    assert_eq!(c.get_row(), Err(StorageError::OutOfRange));
    c.cursor_advance();
    assert_eq!(c.row_num, 0);
    assert!(c.end_of_table);
}

#[test]
fn cursor_reaches_end_after_as_many_steps_as_rows() {
    let mut t = Table::new(Vec::new());
    for i in 0..3u32 {
        t.insert_row(numbered(i)).unwrap();
    }
    let mut c = t.table_start();
    assert!(!c.is_end_of_table());
    let mut seen = Vec::new();
    for step in 0..3usize {
        assert!(!c.end_of_table);
        assert!(!c.table_end());
        assert_eq!(c.row_num, step);
        seen.push(c.get_row().unwrap());
        c.cursor_advance();
    }
    assert!(c.end_of_table);
    assert_eq!(c.row_num, 3);
    assert_eq!(seen, vec![numbered(0), numbered(1), numbered(2)]);
    c.cursor_advance();
    c.cursor_advance();
    assert_eq!(c.row_num, 3);
    assert!(c.end_of_table);
    assert_eq!(c.get_row(), Err(StorageError::OutOfRange));
}

#[test]
fn cursor_value_matches_serialized_row_across_pages() {
    let mut t = Table::new(Vec::new());
    for i in 0..16u32 {
        t.insert_row(numbered(i)).unwrap();
    }
    let mut c = t.table_start();
    for _ in 0..15 {
        c.cursor_advance();
    }
    assert_eq!(c.row_num, 15);
    assert_eq!(c.cursor_value(), Ok(numbered(15).serialize()));
    let mut fresh = c.end_of_table();
    assert_eq!(fresh.row_num, 0);
    assert!(!fresh.end_of_table);
    assert_eq!(fresh.get_row(), Ok(numbered(0)));
}
