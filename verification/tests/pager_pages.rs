use pagestore::error::StorageError;
use pagestore::pager::{Pager, PAGE_SIZE, TABLE_MAX_PAGES};

#[test]
fn new_counts_whole_pages() {
    let p = Pager::new(Vec::new());
    assert_eq!(p.num_pages, 0);
    assert_eq!(p.file_length, 0);
    assert_eq!(p.pages.len(), TABLE_MAX_PAGES);
    assert!(p.pages.iter().all(|s| s.is_none()));
    let p = Pager::new(vec![1u8; 4096 * 2 + 17]);
    assert_eq!(p.num_pages, 2);
    assert_eq!(p.file_length, 8209);
}

#[test]
fn read_loads_from_image_and_zero_fills_short_page() {
    let mut image = vec![7u8; PAGE_SIZE];
    image.extend_from_slice(&[5u8; 10]);
    let mut p = Pager::new(image);
    let page0 = p.page_to_read(0).unwrap().clone();
    assert_eq!(page0, vec![7u8; PAGE_SIZE]);
    let page1 = p.page_to_read(1).unwrap().clone();
    assert_eq!(page1.len(), PAGE_SIZE);
    assert_eq!(&page1[..10], &[5u8; 10]);
    assert!(page1[10..].iter().all(|b| *b == 0));
    let page9 = p.page_to_read(9).unwrap().clone();
    assert_eq!(page9, vec![0u8; PAGE_SIZE]);
    assert_eq!(p.num_pages, 1);
}

#[test]
fn page_index_beyond_cache_is_rejected() {
    let mut p = Pager::new(Vec::new());
    assert_eq!(p.page_to_read(100).err(), Some(StorageError::CapacityExceeded));
    assert_eq!(p.page_to_write(100).err(), Some(StorageError::CapacityExceeded));
    assert_eq!(p.page_to_write(usize::MAX).err(), Some(StorageError::CapacityExceeded));
    assert!(p.page_to_read(99).is_ok());
    assert!(p.page_to_write(99).is_ok());
    assert_eq!(p.num_pages, 0 + 0 * 1);
}

#[test]
fn write_raises_high_water_mark_for_new_pages_only() {
    let mut p = Pager::new(vec![3u8; PAGE_SIZE * 2]);
    {
        let page = p.page_to_write(1).unwrap();
        assert_eq!(*page, vec![3u8; PAGE_SIZE]);
        page[0] = 42;
    }
    assert_eq!(p.num_pages, 2);
    {
        let page = p.page_to_write(5).unwrap();
        assert_eq!(*page, vec![0u8; PAGE_SIZE]);
    }
    assert_eq!(p.num_pages, 6);
    assert_eq!(p.page_to_read(1).unwrap()[0], 42);
}

#[test]
fn flush_writes_resident_page_and_extends_image() {
    let mut p = Pager::new(Vec::new());
    p.page_to_write(2).unwrap()[1] = 9;
    p.flush(0);
    assert_eq!(p.image.len(), 0);
    p.flush(2);
    assert_eq!(p.image.len(), 3 * PAGE_SIZE);
    assert!(p.image[..2 * PAGE_SIZE].iter().all(|b| *b == 0));
    assert_eq!(p.image[2 * PAGE_SIZE + 1], 9);
    p.flush(1000);
    assert_eq!(p.image.len(), 3 * PAGE_SIZE);
}

#[test]
fn close_twice_leaves_the_image_as_after_the_first() {
    let mut p = Pager::new(vec![1u8; PAGE_SIZE + 5]);
    p.page_to_write(0).unwrap()[7] = 77;
    p.page_to_write(3).unwrap()[0] = 33;
    p.close();
    let once = p.image.clone();
    assert_eq!(once.len(), 4 * PAGE_SIZE);
    assert_eq!(once[7], 77);
    assert_eq!(once[3 * PAGE_SIZE], 33);
    assert_eq!(&once[PAGE_SIZE..PAGE_SIZE + 5], &[1u8; 5]);
    p.close();
    assert_eq!(p.image, once);
}
