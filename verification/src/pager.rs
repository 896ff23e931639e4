//! The page cache over the backing image.
//!
//! The backing file is held as its bytes: whoever opens the store hands them
//! in, and takes them back after `close`.

use crate::codec::{copy_range, overlay, write_range, zeroed};
use crate::error::StorageError;
use vstd::prelude::*;

verus! {

/// Size of a page, the unit in which the image is read and written.
pub const PAGE_SIZE: usize = 4096;

/// Number of pages that the cache has room for.
pub const TABLE_MAX_PAGES: usize = 100;

/// A page: `PAGE_SIZE` raw bytes.
pub type Page = Vec<u8>;

/// The cache and its backing image.
#[derive(Debug)]
pub struct Pager {
    /// The bytes of the backing file.
    pub image: Vec<u8>,
    /// Length of the backing file when it was opened.
    pub file_length: usize,
    /// One slot per page number; `None` until the page is first touched.
    pub pages: Vec<Option<Page>>,
    /// High-water mark of the pages known to exist.
    pub num_pages: usize,
}

/// A pager as plain values.
pub struct PagerView {
    pub image: Seq<u8>,
    pub file_length: nat,
    pub cache: Seq<Option<Seq<u8>>>,
    pub num_pages: nat,
}

/// A page of zero bytes.
pub open spec fn zero_page() -> Seq<u8> {
    Seq::new(4096, |i: int| 0u8)
}

/// Page `index` as the image holds it: the bytes from `index * 4096` on,
/// with zero bytes where the image has ended.
pub open spec fn stored_page(image: Seq<u8>, index: int) -> Seq<u8> {
    Seq::new(
        4096,
        |i: int|
            if index * 4096 + i < image.len() {
                image[index * 4096 + i]
            } else {
                0u8
            },
    )
}

/// The image after `page` was written at page `index`: it grows, with zero
/// bytes in between, where it ended before the end of that page.
pub open spec fn image_with_page(image: Seq<u8>, index: int, page: Seq<u8>) -> Seq<u8> {
    Seq::new(
        if image.len() >= (index + 1) * 4096 {
            image.len()
        } else {
            ((index + 1) * 4096) as nat
        },
        |i: int|
            if index * 4096 <= i < (index + 1) * 4096 {
                page[i - index * 4096]
            } else if i < image.len() {
                image[i]
            } else {
                0u8
            },
    )
}

/// A pager freshly opened over `image`: no page is resident, and the
/// high-water mark is the number of whole pages in the image.
pub open spec fn opened_pager(image: Seq<u8>) -> PagerView {
    PagerView {
        image,
        file_length: image.len(),
        cache: Seq::new(100, |i: int| None::<Seq<u8>>),
        num_pages: image.len() / 4096,
    }
}

impl PagerView {
    /// The cache has its fixed number of slots, and each page in it its size.
    pub open spec fn wf(self) -> bool {
        &&& self.cache.len() == 100
        &&& forall|i: int|
            0 <= i < 100 && (#[trigger] self.cache[i]) is Some ==> self.cache[i]->0.len() == 4096
    }

    /// Whether page `index` is in the cache.
    pub open spec fn resident(self, index: int) -> bool {
        0 <= index < self.cache.len() && self.cache[index] is Some
    }

    /// Page `index` as a reader gets it: from the cache, else from the image.
    pub open spec fn read_content(self, index: int) -> Seq<u8> {
        if self.resident(index) {
            self.cache[index]->0
        } else {
            stored_page(self.image, index)
        }
    }

    /// Page `index` as a writer gets it: from the cache; else from the image,
    /// where the page is below the high-water mark; else a page of zeros.
    pub open spec fn write_content(self, index: int) -> Seq<u8> {
        if self.resident(index) {
            self.cache[index]->0
        } else if index < self.num_pages {
            stored_page(self.image, index)
        } else {
            zero_page()
        }
    }

    /// The pager after page `index` was requested for reading.
    pub open spec fn after_read(self, index: int) -> PagerView {
        PagerView { cache: self.cache.update(index, Some(self.read_content(index))), ..self }
    }

    /// The pager after page `index` was requested for writing and `page` was
    /// left in it.
    pub open spec fn after_write(self, index: int, page: Seq<u8>) -> PagerView {
        PagerView {
            cache: self.cache.update(index, Some(page)),
            num_pages: if self.resident(index) || index < self.num_pages {
                self.num_pages
            } else {
                (index + 1) as nat
            },
            ..self
        }
    }

    /// The pager after page `index` was flushed: a resident page is written
    /// to the image, whole; otherwise nothing happens.
    pub open spec fn after_flush(self, index: int) -> PagerView {
        if self.resident(index) {
            PagerView { image: image_with_page(self.image, index, self.cache[index]->0), ..self }
        } else {
            self
        }
    }

    /// The pager after the pages below `n` were flushed, in order.
    pub open spec fn after_flushes(self, n: nat) -> PagerView
        decreases n,
    {
        if n == 0 {
            self
        } else {
            self.after_flushes((n - 1) as nat).after_flush(n - 1)
        }
    }

    /// The pager after `close`: every page below the high-water mark was flushed.
    pub open spec fn after_close(self) -> PagerView {
        self.after_flushes(self.num_pages)
    }
}

/// Whether `image` reaches to the end of page `index` and holds `page` there.
pub open spec fn holds_page(image: Seq<u8>, index: int, page: Seq<u8>) -> bool {
    &&& image.len() >= (index + 1) * 4096
    &&& forall|k: int| 0 <= k < 4096 ==> #[trigger] image[index * 4096 + k] == page[k]
}

/// Whether the image holds every resident page below `n` as the cache has it.
pub open spec fn synced(pager: PagerView, n: int) -> bool {
    forall|i: int|
        0 <= i < n && #[trigger] pager.resident(i) ==> holds_page(
            pager.image,
            i,
            pager.cache[i]->0,
        )
}

/// Writing a page to the image puts it there and leaves every other page
/// of the image as it was.
pub proof fn lemma_image_with_page(image: Seq<u8>, index: int, page: Seq<u8>)
    requires
        0 <= index,
        page.len() == 4096,
    ensures
        holds_page(image_with_page(image, index, page), index, page),
        stored_page(image_with_page(image, index, page), index) == page,
        forall|j: int|
            0 <= j && j != index ==> #[trigger] stored_page(
                image_with_page(image, index, page),
                j,
            ) == stored_page(image, j),
        forall|j: int, other: Seq<u8>|
            0 <= j && j != index && #[trigger] holds_page(image, j, other) ==> holds_page(
                image_with_page(image, index, page),
                j,
                other,
            ),
        holds_page(image, index, page) ==> image_with_page(image, index, page) == image,
{
    let after = image_with_page(image, index, page);
    assert(holds_page(after, index, page));
    assert(stored_page(after, index) =~= page);
    assert forall|j: int| 0 <= j && j != index implies #[trigger] stored_page(after, j)
        == stored_page(image, j) by {
        assert(stored_page(after, j) =~= stored_page(image, j));
    }
    assert forall|j: int, other: Seq<u8>|
        0 <= j && j != index && #[trigger] holds_page(image, j, other) implies holds_page(
        after,
        j,
        other,
    ) by {
        assert forall|k: int| 0 <= k < 4096 implies #[trigger] after[j * 4096 + k] == other[k] by {
            assert(image[j * 4096 + k] == other[k]);
        }
    }
    if holds_page(image, index, page) {
        assert forall|i: int| 0 <= i < image.len() implies after[i] == image[i] by {
            if index * 4096 <= i < (index + 1) * 4096 {
                assert(image[index * 4096 + (i - index * 4096)] == page[i - index * 4096]);
            }
        }
        assert(after =~= image);
    }
}

/// After the pages below `n` were flushed, the cache and the high-water
/// mark are as before, and the image holds each of those pages as the cache
/// has it where it is resident, and as the image had it where it is not.
/// The pages from `n` on are as the image had them, and the image has
/// grown at most to the end of page `n - 1`.
pub proof fn lemma_flushes(pager: PagerView, n: nat)
    requires
        pager.wf(),
    ensures
        pager.after_flushes(n).wf(),
        pager.after_flushes(n).cache == pager.cache,
        pager.after_flushes(n).num_pages == pager.num_pages,
        pager.after_flushes(n).file_length == pager.file_length,
        pager.image.len() <= pager.after_flushes(n).image.len(),
        pager.after_flushes(n).image.len() <= pager.image.len() || pager.after_flushes(
            n,
        ).image.len() <= n * 4096,
        synced(pager.after_flushes(n), n as int),
        forall|p: int|
            0 <= p ==> #[trigger] stored_page(pager.after_flushes(n).image, p) == if p < n
                && pager.resident(p) {
                pager.cache[p]->0
            } else {
                stored_page(pager.image, p)
            },
    decreases n,
{
    if n > 0 {
        lemma_flushes(pager, (n - 1) as nat);
        let before = pager.after_flushes((n - 1) as nat);
        if before.resident(n - 1) {
            lemma_image_with_page(before.image, n - 1, before.cache[n - 1]->0);
            let after = before.after_flush(n - 1);
            assert forall|i: int| 0 <= i < n && #[trigger] after.resident(i) implies holds_page(
                after.image,
                i,
                after.cache[i]->0,
            ) by {
                if i < n - 1 {
                    assert(before.resident(i));
                    assert(holds_page(before.image, i, before.cache[i]->0));
                }
            }
        }
    }
}

/// Flushing pages that the image already holds as the cache has them
/// changes nothing.
pub proof fn lemma_flushes_of_synced(pager: PagerView, n: nat)
    requires
        pager.wf(),
        synced(pager, n as int),
    ensures
        pager.after_flushes(n) == pager,
    decreases n,
{
    if n > 0 {
        lemma_flushes_of_synced(pager, (n - 1) as nat);
        if pager.resident(n - 1) {
            lemma_image_with_page(pager.image, n - 1, pager.cache[n - 1]->0);
        }
    }
}

/// Closing a pager a second time changes nothing: the image, the cache and
/// the high-water mark are as after the first close.
pub proof fn lemma_close_idempotent(pager: PagerView)
    requires
        pager.wf(),
    ensures
        pager.after_close().after_close() == pager.after_close(),
{
    lemma_flushes(pager, pager.num_pages);
    lemma_flushes_of_synced(pager.after_close(), pager.num_pages);
}

/// Requesting a page for reading changes what no page holds.
pub proof fn lemma_read_keeps_content(pager: PagerView, index: int)
    requires
        pager.wf(),
        0 <= index < 100,
    ensures
        pager.after_read(index).wf(),
        forall|p: int| #[trigger]
            pager.after_read(index).read_content(p) == pager.read_content(p),
{
}

/// A slot of the cache as plain values.
pub open spec fn slot_view(slot: Option<Page>) -> Option<Seq<u8>> {
    match slot {
        Some(p) => Some(p@),
        None => None,
    }
}

impl View for Pager {
    type V = PagerView;

    open spec fn view(&self) -> PagerView {
        PagerView {
            image: self.image@,
            file_length: self.file_length as nat,
            cache: Seq::new(self.pages@.len(), |i: int| slot_view(self.pages@[i])),
            num_pages: self.num_pages as nat,
        }
    }
}

impl Pager {
    /// Opens a pager over the bytes of a backing file. No page is resident,
    /// and the high-water mark is the number of whole pages in the image.
    pub fn new(image: Vec<u8>) -> (pager: Pager)
        ensures
            pager@.wf(),
            pager@.image == image@,
            pager@.num_pages == image@.len() / 4096,
            pager@.file_length == image@.len(),
            pager@.cache =~= opened_pager(image@).cache,
    {
        let mut pages: Vec<Option<Page>> = Vec::new();
        let mut i: usize = 0;
        while i < TABLE_MAX_PAGES
            invariant
                i <= TABLE_MAX_PAGES,
                pages@.len() == i,
                forall|j: int| 0 <= j < i ==> pages@[j] is None,
            decreases TABLE_MAX_PAGES - i,
        {
            pages.push(None);
            i += 1;
        }
        let file_length = image.len();
        let num_pages = file_length / PAGE_SIZE;
        Pager { image, file_length, pages, num_pages }
    }

    /// Page `page_index`, for reading. A page that is not resident is first
    /// loaded from the image. Fails with `CapacityExceeded` exactly where
    /// the index is beyond the cache, and then changes nothing.
    pub fn page_to_read(&mut self, page_index: usize) -> (r: Result<&Page, StorageError>)
        requires
            old(self)@.wf(),
        ensures
            final(self)@.wf(),
            r is Ok <==> page_index < TABLE_MAX_PAGES,
            r is Ok ==> r->Ok_0@ == old(self)@.read_content(page_index as int) && final(self)@
                == old(self)@.after_read(page_index as int),
            r is Err ==> r->Err_0 == StorageError::CapacityExceeded && final(self)@ == old(self)@,
    {
        if page_index >= TABLE_MAX_PAGES {
            return Err(StorageError::CapacityExceeded);
        }
        if self.pages[page_index].is_none() {
            assert(old(self)@.cache[page_index as int] is None);
            self.load(page_index);
        } else {
            assert(old(self)@.cache[page_index as int] is Some);
        }
        assert(self@.cache[page_index as int] is Some);
        assert(self@.cache =~= old(self)@.after_read(page_index as int).cache);
        Ok(self.pages[page_index].as_ref().unwrap())
    }

    /// Page `page_index`, for writing: what the caller leaves in it is what
    /// the cache then holds. A page that is not resident starts as the image
    /// has it, where it is below the high-water mark, and as zeros otherwise;
    /// the mark rises to cover it. Fails with `CapacityExceeded` exactly
    /// where the index is beyond the cache, and then changes nothing.
    pub fn page_to_write(&mut self, page_index: usize) -> (r: Result<&mut Page, StorageError>)
        requires
            old(self)@.wf(),
        ensures
            r is Ok <==> page_index < TABLE_MAX_PAGES,
            r is Ok ==> r->Ok_0@ == old(self)@.write_content(page_index as int),
            r is Ok ==> final(self)@.cache =~= old(self)@.after_write(
                page_index as int,
                final(r->Ok_0)@,
            ).cache,
            r is Ok ==> final(self)@.image == old(self)@.image,
            r is Ok ==> final(self)@.file_length == old(self)@.file_length,
            r is Ok ==> final(self)@.num_pages == old(self)@.after_write(
                page_index as int,
                final(r->Ok_0)@,
            ).num_pages,
            r is Err ==> r->Err_0 == StorageError::CapacityExceeded && final(self)@ == old(self)@,
    {
        if page_index >= TABLE_MAX_PAGES {
            return Err(StorageError::CapacityExceeded);
        }
        if self.pages[page_index].is_none() {
            if page_index < self.num_pages {
                self.load(page_index);
            } else {
                let page = zeroed(PAGE_SIZE);
                self.pages.set(page_index, Some(page));
                self.num_pages = page_index + 1;
            }
        }
        let ghost mid = self@;
        assert(mid.cache[page_index as int] is Some);
        assert(mid.cache =~= old(self)@.cache.update(
            page_index as int,
            Some(old(self)@.write_content(page_index as int)),
        )) by {
            assert(old(self)@.cache[page_index as int] is Some <==> old(self).pages@[page_index as int] is Some);
        }
        assert(forall|j: int| 0 <= j < 100 ==> slot_view(#[trigger] self.pages@[j]) == mid.cache[j]);
        Ok(self.pages[page_index].as_mut().unwrap())
    }

    /// Brings page `page_index` into the cache as the image has it.
    fn load(&mut self, page_index: usize)
        requires
            old(self)@.wf(),
            page_index < TABLE_MAX_PAGES,
        ensures
            final(self)@.wf(),
            final(self)@ == (PagerView {
                cache: old(self)@.cache.update(
                    page_index as int,
                    Some(stored_page(old(self)@.image, page_index as int)),
                ),
                ..old(self)@
            }),
    {
        let offset = page_index * PAGE_SIZE;
        let mut buf = zeroed(PAGE_SIZE);
        let len = self.image.len();
        if offset < len {
            let end = if len - offset < PAGE_SIZE {
                len
            } else {
                offset + PAGE_SIZE
            };
            let stored = copy_range(&self.image, offset, end);
            write_range(&mut buf, 0, &stored);
        }
        assert(buf@ =~= stored_page(self.image@, page_index as int));
        self.pages.set(page_index, Some(buf));
        assert(self@.cache =~= old(self)@.cache.update(
            page_index as int,
            Some(stored_page(old(self)@.image, page_index as int)),
        ));
    }

    /// Writes page `page_index` back to the image, whole, where it is
    /// resident; does nothing otherwise.
    pub fn flush(&mut self, page_index: usize)
        requires
            old(self)@.wf(),
        ensures
            final(self)@.wf(),
            final(self)@.image =~= old(self)@.after_flush(page_index as int).image,
            final(self)@.cache == old(self)@.cache,
            final(self)@.num_pages == old(self)@.num_pages,
            final(self)@.file_length == old(self)@.file_length,
    {
        if page_index >= TABLE_MAX_PAGES {
            return ;
        }
        if self.pages[page_index].is_none() {
            assert(!old(self)@.resident(page_index as int));
            return ;
        }
        assert(old(self)@.cache[page_index as int] is Some);
        let offset = page_index * PAGE_SIZE;
        let ghost before = self.image@;
        while self.image.len() < offset + PAGE_SIZE
            invariant
                offset == page_index * 4096,
                page_index < 100,
                self.pages == old(self).pages,
                self.num_pages == old(self).num_pages,
                self.file_length == old(self).file_length,
                before.len() <= self.image@.len(),
                self.image@.len() <= before.len() || self.image@.len() <= offset + 4096,
                forall|i: int| 0 <= i < before.len() ==> self.image@[i] == before[i],
                forall|i: int| before.len() <= i < self.image@.len() ==> self.image@[i] == 0,
            decreases offset + 4096 - self.image@.len(),
        {
            self.image.push(0u8);
        }
        let page = copy_range(self.pages[page_index].as_ref().unwrap(), 0, PAGE_SIZE);
        write_range(&mut self.image, offset, &page);
        assert(self@.cache =~= old(self)@.cache);
    }

    /// Flushes every page below the high-water mark, in order.
    pub fn close(&mut self)
        requires
            old(self)@.wf(),
        ensures
            final(self)@.wf(),
            final(self)@ == old(self)@.after_close(),
    {
        let mut i: usize = 0;
        while i < self.num_pages
            invariant
                i <= self.num_pages,
                self@.wf(),
                self.num_pages == old(self).num_pages,
                self.file_length == old(self).file_length,
                self@ == old(self)@.after_flushes(i as nat),
            decreases self.num_pages - i,
        {
            self.flush(i);
            i += 1;
        }
    }
}

} // verus!
