//! The list of books, page by page, with the covers and states of its books.
//!
//! There is no scrolling: on an e-ink panel every frame costs a full update of the screen. The list
//! is cut into pages here, and exactly one page is shown. How many rows fit is known only to the
//! window, and can change.
use std::collections::{HashMap, HashSet, VecDeque};
use vstd::prelude::*;

use crate::calibre::{book_views, Book, BookView};
use crate::cover::{unpacked, CachedCover, Rgb8Pixel};
use crate::i18n::{author_or_placeholder, book_state, book_state_text, page_label, page_label_text,
    shown_author, shown_title, title_or_placeholder, BookState, Lang};
use crate::worker::row_id;

verus! {

broadcast use vstd::std_specs::hash::group_hash_axioms;

/// How many covers are kept in memory: far more than a page can hold, and few enough to stay under
/// a megabyte however long the list is.
pub const COVER_CACHE_LIMIT: usize = 64;

/// A picture in colour, row by row.
#[derive(Debug)]
pub struct Picture {
    pub width: u32,
    pub height: u32,
    pub pixels: Vec<Rgb8Pixel>,
}

/// A row of the list as it is shown.
#[derive(Debug)]
pub struct BookItem {
    pub id: i32,
    pub title: String,
    pub author: String,
    pub format: String,
    pub state: String,
    pub cover: Option<Picture>,
}

/// A row of the list as it is shown; a cover by its size and its grey values.
#[verifier::ext_equal]
pub struct BookItemView {
    pub id: i32,
    pub title: Seq<char>,
    pub author: Seq<char>,
    pub format: Seq<char>,
    pub state: Seq<char>,
    pub cover: Option<(u32, u32, Seq<Rgb8Pixel>)>,
}

impl View for BookItem {
    type V = BookItemView;

    open spec fn view(&self) -> BookItemView {
        BookItemView {
            id: self.id,
            title: self.title@,
            author: self.author@,
            format: self.format@,
            state: self.state@,
            cover: match self.cover {
                Some(picture) => Some((picture.width, picture.height, picture.pixels@)),
                None => None,
            },
        }
    }
}

/// A page as it is shown, and the covers to ask for now that it is.
#[derive(Debug)]
pub struct Page {
    pub items: Vec<BookItem>,
    pub label: String,
    pub has_prev: bool,
    pub has_next: bool,
    pub missing: Vec<i64>,
}

/// A page as it is shown, and the covers to ask for now that it is.
#[verifier::ext_equal]
pub struct PageView {
    pub items: Seq<BookItemView>,
    pub label: Seq<char>,
    pub has_prev: bool,
    pub has_next: bool,
    pub missing: Seq<i64>,
}

/// The rows of a page.
pub open spec fn item_views(items: Seq<BookItem>) -> Seq<BookItemView> {
    Seq::new(items.len(), |i: int| items[i]@)
}

impl View for Page {
    type V = PageView;

    open spec fn view(&self) -> PageView {
        PageView {
            items: item_views(self.items@),
            label: self.label@,
            has_prev: self.has_prev,
            has_next: self.has_next,
            missing: self.missing@,
        }
    }
}

/// The list of books, page by page.
pub struct Pager {
    pub all: Vec<Book>,
    pub covers: HashMap<i64, CachedCover>,
    /// The books with a cover, in the order in which the covers came.
    pub cover_order: VecDeque<i64>,
    /// The books whose covers were asked for. Without it every cover that comes in would make the
    /// page ask again for all that have not come yet.
    pub requested: HashSet<i64>,
    pub states: HashMap<i64, BookState>,
    pub page: usize,
    pub rows: usize,
    /// Something has changed since the page was shown.
    pub dirty: bool,
}

/// The list of books, page by page.
#[verifier::ext_equal]
pub struct PagerView {
    pub all: Seq<BookView>,
    pub covers: Map<i64, CachedCover>,
    pub order: Seq<i64>,
    pub requested: Set<i64>,
    pub states: Map<i64, BookState>,
    pub page: nat,
    pub rows: nat,
    pub dirty: bool,
}

impl View for Pager {
    type V = PagerView;

    open spec fn view(&self) -> PagerView {
        PagerView {
            all: book_views(self.all@),
            covers: self.covers@,
            order: self.cover_order@,
            requested: self.requested@,
            states: self.states@,
            page: self.page as nat,
            rows: self.rows as nat,
            dirty: self.dirty,
        }
    }
}

/// How many pages `len` books take; no books take one empty page.
pub open spec fn pages(len: nat, rows: nat) -> nat {
    if len == 0 {
        1
    } else {
        ((len - 1) / rows as int + 1) as nat
    }
}

/// The first book of a page.
pub open spec fn page_start(len: nat, rows: nat, page: nat) -> int {
    if page * rows < len {
        (page * rows) as int
    } else {
        len as int
    }
}

/// One past the last book of a page.
pub open spec fn page_end(len: nat, rows: nat, page: nat) -> int {
    if page_start(len, rows, page) + rows < len {
        page_start(len, rows, page) + rows
    } else {
        len as int
    }
}

/// The nearest page that there is.
pub open spec fn clamped(page: nat, total: nat) -> nat {
    if page < total {
        page
    } else {
        (total - 1) as nat
    }
}

/// The books on one page.
pub open spec fn books_on(all: Seq<BookView>, rows: nat, page: nat) -> Seq<BookView> {
    all.subrange(page_start(all.len(), rows, page), page_end(all.len(), rows, page))
}

impl PagerView {
    /// There is such a page; there is an order for exactly the covers that are kept; and they are
    /// not more than the limit.
    pub open spec fn wf(self) -> bool {
        &&& self.rows > 0
        &&& self.page < pages(self.all.len(), self.rows)
        &&& self.order.no_duplicates()
        &&& self.order.to_set() == self.covers.dom()
        &&& self.order.len() <= COVER_CACHE_LIMIT
        &&& forall|id: i64| #[trigger] self.covers.contains_key(id) ==> self.covers[id].wf()
    }

    /// The books on the page that is shown.
    pub open spec fn visible(self) -> Seq<BookView> {
        books_on(self.all, self.rows, self.page)
    }

    /// Whether the page that is shown has a book of this id.
    pub open spec fn shows(self, id: i64) -> bool {
        exists|i: int| 0 <= i < self.visible().len() && (#[trigger] self.visible()[i]).id == id
    }
}

/// The ids of books.
pub open spec fn ids_of(books: Seq<BookView>) -> Seq<i64> {
    Seq::new(books.len(), |i: int| books[i].id)
}

/// The ids, each once and in order, that are neither kept nor asked for yet.
pub open spec fn missing_of(ids: Seq<i64>, kept: Set<i64>, requested: Set<i64>) -> Seq<i64>
    decreases ids.len(),
{
    if ids.len() == 0 {
        ids
    } else {
        let before = missing_of(ids.drop_last(), kept, requested);
        let id = ids.last();
        if kept.contains(id) || requested.contains(id) || before.contains(id) {
            before
        } else {
            before.push(id)
        }
    }
}

/// A cover as it is shown.
pub open spec fn picture_of(cover: CachedCover) -> (u32, u32, Seq<Rgb8Pixel>) {
    let grey = unpacked(cover.pixels@, cover.width as int, cover.height as int);
    (
        cover.width,
        cover.height,
        Seq::new(
            (cover.width * cover.height) as nat,
            |i: int| Rgb8Pixel { r: grey[i], g: grey[i], b: grey[i] },
        ),
    )
}

/// A row of the list in the given language.
pub open spec fn item_of(v: PagerView, book: BookView, lang: Lang) -> BookItemView {
    BookItemView {
        id: row_id(book.id),
        title: shown_title(book.title, lang),
        author: shown_author(book.author, lang),
        format: match book.format {
            Some(format) => format,
            None => "—"@,
        },
        state: if v.states.contains_key(book.id) {
            book_state_text(v.states[book.id], lang)
        } else {
            Seq::empty()
        },
        cover: if v.covers.contains_key(book.id) {
            Some(picture_of(v.covers[book.id]))
        } else {
            None
        },
    }
}

/// The covers to ask for when the page is shown.
pub open spec fn missing_in(v: PagerView) -> Seq<i64> {
    missing_of(ids_of(v.visible()), v.covers.dom(), v.requested)
}

/// The page as it is shown in the given language.
pub open spec fn page_of(v: PagerView, lang: Lang) -> PageView {
    let total = pages(v.all.len(), v.rows);
    PageView {
        items: Seq::new(v.visible().len(), |i: int| item_of(v, v.visible()[i], lang)),
        label: if v.all.len() == 0 {
            Seq::empty()
        } else {
            page_label_text(v.page + 1, total, lang)
        },
        has_prev: v.page > 0,
        has_next: v.page + 1 < total,
        missing: missing_in(v),
    }
}

/// What is left once the page has been shown: nothing is due, and its covers have been asked for.
pub open spec fn rendered(v: PagerView) -> PagerView {
    PagerView { dirty: false, requested: v.requested.union(missing_in(v).to_set()), ..v }
}

/// A new list takes the place of everything.
pub open spec fn with_books(v: PagerView, books: Seq<BookView>) -> PagerView {
    PagerView {
        all: books,
        covers: Map::empty(),
        order: Seq::empty(),
        requested: Set::empty(),
        states: Map::empty(),
        page: 0,
        ..v
    }
}

/// As many rows as fit, and at least one; the page stays if it is still there.
pub open spec fn with_rows(v: PagerView, rows: nat) -> PagerView {
    let rows = if rows == 0 {
        1
    } else {
        rows
    };
    PagerView { rows, page: clamped(v.page, pages(v.all.len(), rows)), ..v }
}

/// The page after or before, or the same one where there is none.
pub open spec fn turned(v: PagerView, forward: bool) -> PagerView {
    if forward && v.page + 1 < pages(v.all.len(), v.rows) {
        PagerView { page: v.page + 1, ..v }
    } else if !forward && v.page > 0 {
        PagerView { page: (v.page - 1) as nat, ..v }
    } else {
        v
    }
}

/// A cover has come in. One over the limit pushes out the one that came first, and what was pushed
/// out may be asked for again.
pub open spec fn with_cover(v: PagerView, id: i64, cover: CachedCover) -> PagerView {
    let order = if v.covers.contains_key(id) {
        v.order
    } else {
        v.order.push(id)
    };
    let covers = v.covers.insert(id, cover);
    let dirty = v.dirty || v.shows(id);
    if order.len() > COVER_CACHE_LIMIT {
        PagerView {
            order: order.drop_first(),
            covers: covers.remove(order[0]),
            requested: v.requested.remove(order[0]),
            dirty,
            ..v
        }
    } else {
        PagerView { order, covers, dirty, ..v }
    }
}

/// The number of pages.
fn count_pages(len: usize, rows: usize) -> (r: usize)
    requires
        rows > 0,
    ensures
        r == pages(len as nat, rows as nat),
        r > 0,
{
    if len == 0 {
        1
    } else {
        assert((len - 1) / (rows as int) <= len - 1) by (nonlinear_arith)
            requires
                len >= 1,
                rows > 0,
        ;
        assert((len - 1) / (rows as int) >= 0) by (nonlinear_arith)
            requires
                len >= 1,
                rows > 0,
        ;
        (len - 1) / rows + 1
    }
}

/// A page that there is starts within the list.
proof fn lemma_page_starts_within(len: nat, rows: nat, page: nat)
    requires
        rows > 0,
        page < pages(len, rows),
    ensures
        page * rows <= len,
        len > 0 ==> page * rows < len,
        page_start(len, rows, page) == page * rows,
{
    if len > 0 {
        let q = (len - 1) / rows as int;
        assert(q * rows <= len - 1) by (nonlinear_arith)
            requires
                q == (len - 1) / rows as int,
                rows > 0,
        ;
        assert(page * rows <= q * rows) by (nonlinear_arith)
            requires
                0 <= page <= q,
                rows > 0,
        ;
    } else {
        assert(page * rows == 0) by (nonlinear_arith)
            requires
                page == 0,
        ;
    }
}

impl Pager {
    /// An empty list, with nothing asked for.
    pub fn new() -> (r: Self)
        ensures
            r@.wf(),
            r@ == (PagerView {
                all: Seq::empty(),
                covers: Map::empty(),
                order: Seq::empty(),
                requested: Set::empty(),
                states: Map::empty(),
                page: 0,
                rows: 1,
                dirty: false,
            }),
    {
        let r = Pager {
            all: Vec::new(),
            covers: HashMap::new(),
            cover_order: VecDeque::new(),
            requested: HashSet::new(),
            states: HashMap::new(),
            page: 0,
            rows: 1,
            dirty: false,
        };
        assert(r@.all =~= Seq::empty());
        assert(r@.order.to_set() =~= r@.covers.dom());
        r
    }

    /// The number of pages.
    pub fn total_pages(&self) -> (r: usize)
        requires
            self@.wf(),
        ensures
            r == pages(self@.all.len(), self@.rows),
    {
        count_pages(self.all.len(), self.rows)
    }

    /// Where the books of the shown page start and end in the list.
    pub fn page_range(&self) -> (r: (usize, usize))
        requires
            self@.wf(),
        ensures
            r.0 == page_start(self@.all.len(), self@.rows, self@.page),
            r.1 == page_end(self@.all.len(), self@.rows, self@.page),
            r.0 <= r.1 <= self.all@.len(),
    {
        proof {
            lemma_page_starts_within(self@.all.len(), self@.rows, self@.page);
        }
        let len: usize = self.all.len();
        let start: usize = self.page * self.rows;
        if self.rows < len - start {
            (start, start + self.rows)
        } else {
            (start, len)
        }
    }

    /// Whether the shown page has a book of this id.
    pub fn is_visible(&self, id: i64) -> (r: bool)
        requires
            self@.wf(),
        ensures
            r == self@.shows(id),
    {
        let (start, end) = self.page_range();
        for i in start..end
            invariant
                self@.wf(),
                start == page_start(self@.all.len(), self@.rows, self@.page),
                end == page_end(self@.all.len(), self@.rows, self@.page),
                start <= end <= self.all@.len(),
                forall|j: int| 0 <= j < i - start ==> (#[trigger] self@.visible()[j]).id != id,
        {
            assert(self@.visible()[i - start] == self.all@[i as int]@);
            if self.all[i].id == id {
                return true;
            }
        }
        false
    }

    /// The row of a book.
    fn item(&self, book: &Book, lang: Lang) -> (r: BookItem)
        requires
            self@.wf(),
        ensures
            r@ == item_of(self@, book@, lang),
    {
        let cover = match self.covers.get(&book.id) {
            Some(cover) => {
                assert(self@.covers.contains_key(book.id));
                let pixels = cover.to_image();
                assert(pixels@ =~= picture_of(*cover).2);
                Some(Picture { width: cover.width, height: cover.height, pixels })
            },
            None => None,
        };
        BookItem {
            id: #[verifier::truncate]
            (book.id as i32),
            title: title_or_placeholder(book.title.as_str(), lang),
            author: author_or_placeholder(book.author.as_str(), lang),
            format: match &book.format {
                Some(format) => format.clone(),
                None => "—".to_string(),
            },
            state: match self.states.get(&book.id) {
                Some(state) => book_state(*state, lang).to_string(),
                None => String::new(),
            },
            cover,
        }
    }

    /// Shows the page: gives what is to be on screen, and the covers to ask for, each of which is
    /// marked as asked for.
    pub fn render(&mut self, lang: Lang) -> (r: Page)
        requires
            old(self)@.wf(),
        ensures
            final(self)@ == rendered(old(self)@),
            final(self)@.wf(),
            r@ == page_of(old(self)@, lang),
    {
        let ghost was = self@;
        let (start, end) = self.page_range();
        let total: usize = self.total_pages();
        let ghost ids = ids_of(was.visible());
        let mut items: Vec<BookItem> = Vec::new();
        for i in start..end
            invariant
                self@ == was,
                was.wf(),
                start == page_start(was.all.len(), was.rows, was.page),
                end == page_end(was.all.len(), was.rows, was.page),
                start <= end <= self.all@.len(),
                item_views(items@) == page_of(was, lang).items.take(i - start),
        {
            let ghost before = items@;
            assert(was.visible()[i - start] == self.all@[i as int]@);
            let item = self.item(&self.all[i], lang);
            items.push(item);
            assert(item_views(items@) =~= item_views(before).push(item@));
            assert(page_of(was, lang).items[i - start] == item@);
            assert(item_views(items@) =~= page_of(was, lang).items.take(i + 1 - start));
        }
        assert(item_views(items@) =~= page_of(was, lang).items);

        let mut missing: Vec<i64> = Vec::new();
        assert(was.requested.union(missing@.to_set()) =~= was.requested);
        assert(missing@ =~= missing_of(ids.take(0), was.covers.dom(), was.requested));
        for i in start..end
            invariant
                self@ == (PagerView {
                    requested: was.requested.union(missing@.to_set()),
                    ..was
                }),
                was.wf(),
                ids == ids_of(was.visible()),
                start == page_start(was.all.len(), was.rows, was.page),
                end == page_end(was.all.len(), was.rows, was.page),
                start <= end <= self.all@.len(),
                missing@ == missing_of(ids.take(i - start), was.covers.dom(), was.requested),
        {
            let ghost before = missing@;
            let id: i64 = self.all[i].id;
            assert(was.visible()[i - start] == self.all@[i as int]@);
            assert(ids.take(i + 1 - start).drop_last() =~= ids.take(i - start));
            assert(ids.take(i + 1 - start).last() == id);
            assert(before.contains(id) == before.to_set().contains(id));
            if !self.covers.contains_key(&id) && self.requested.insert(id) {
                missing.push(id);
                assert(missing@.to_set() =~= before.to_set().insert(id)) by {
                    assert forall|x: i64| #[trigger]
                        missing@.contains(x) == (before.contains(x) || x == id) by {
                        if before.contains(x) {
                            let k = choose|k: int| 0 <= k < before.len() && before[k] == x;
                            assert(missing@[k] == x);
                        }
                        assert(missing@[before.len() as int] == id);
                    }
                }
            }
            assert(self@.requested =~= was.requested.union(missing@.to_set()));
        }
        assert(ids.take(end - start) =~= ids);
        self.dirty = false;

        let label = if self.all.len() == 0 {
            String::new()
        } else {
            page_label(self.page + 1, total, lang)
        };
        Page { items, label, has_prev: self.page > 0, has_next: self.page + 1 < total, missing }
    }

    /// A new list takes the place of everything.
    pub fn set_books(&mut self, books: Vec<Book>, lang: Lang) -> (r: Page)
        requires
            old(self)@.wf(),
        ensures
            final(self)@ == rendered(with_books(old(self)@, book_views(books@))),
            final(self)@.wf(),
            r@ == page_of(with_books(old(self)@, book_views(books@)), lang),
    {
        self.all = books;
        self.covers.clear();
        self.cover_order.clear();
        self.requested.clear();
        self.states.clear();
        self.page = 0;
        assert(self@.order.to_set() =~= self@.covers.dom());
        self.render(lang)
    }

    /// As many rows as fit, and at least one; the page stays if it is still there. Shows the page
    /// if the number has changed.
    pub fn set_rows(&mut self, rows: usize, lang: Lang) -> (r: Option<Page>)
        requires
            old(self)@.wf(),
        ensures
            final(self)@.wf(),
            ({
                let v = with_rows(old(self)@, rows as nat);
                if v.rows == old(self)@.rows {
                    final(self)@ == old(self)@ && r is None
                } else {
                    &&& final(self)@ == rendered(v)
                    &&& r is Some
                    &&& r->0@ == page_of(v, lang)
                }
            }),
    {
        let rows: usize = if rows == 0 {
            1
        } else {
            rows
        };
        if rows == self.rows {
            return None;
        }
        self.rows = rows;
        // The page may be past the end now.
        let total: usize = count_pages(self.all.len(), rows);
        if self.page >= total {
            self.page = total - 1;
        }
        Some(self.render(lang))
    }

    /// Turns the page, and shows it if there is one to turn to.
    pub fn turn(&mut self, forward: bool, lang: Lang) -> (r: Option<Page>)
        requires
            old(self)@.wf(),
        ensures
            final(self)@.wf(),
            ({
                let v = turned(old(self)@, forward);
                if v.page == old(self)@.page {
                    final(self)@ == old(self)@ && r is None
                } else {
                    &&& final(self)@ == rendered(v)
                    &&& r is Some
                    &&& r->0@ == page_of(v, lang)
                }
            }),
    {
        let total: usize = self.total_pages();
        if forward {
            if self.page + 1 < total {
                self.page = self.page + 1;
                return Some(self.render(lang));
            }
        } else if self.page > 0 {
            self.page = self.page - 1;
            return Some(self.render(lang));
        }
        None
    }

    /// Notes the state of a download, for when the page is shown next.
    pub fn set_state(&mut self, id: i64, state: BookState)
        requires
            old(self)@.wf(),
        ensures
            final(self)@.wf(),
            final(self)@ == (PagerView {
                states: old(self)@.states.insert(id, state),
                dirty: true,
                ..old(self)@
            }),
    {
        self.states.insert(id, state);
        self.dirty = true;
    }

    /// Keeps a cover, for when the page is shown next. The cover of a book on another page changes
    /// nothing on screen.
    pub fn set_cover(&mut self, id: i64, cover: CachedCover)
        requires
            old(self)@.wf(),
            cover.wf(),
        ensures
            final(self)@.wf(),
            final(self)@ == with_cover(old(self)@, id, cover),
    {
        let ghost was = self@;
        if self.is_visible(id) {
            self.dirty = true;
        }
        if self.covers.insert(id, cover).is_none() {
            self.cover_order.push_back(id);
        }
        let ghost order = self.cover_order@;
        proof {
            assert(order.no_duplicates()) by {
                if order.len() > was.order.len() {
                    assert(!was.order.to_set().contains(id));
                }
            }
            assert(order.to_set() =~= was.covers.insert(id, cover).dom()) by {
                assert forall|x: i64| #[trigger]
                    order.contains(x) == (was.order.contains(x) || x == id) by {
                    assert(was.order.to_set().contains(x) == was.order.contains(x));
                    if was.order.contains(x) {
                        let k = choose|k: int| 0 <= k < was.order.len() && was.order[k] == x;
                        assert(order[k] == x);
                    }
                    if x == id {
                        if was.covers.contains_key(id) {
                            assert(was.order.to_set().contains(id));
                        } else {
                            assert(order[was.order.len() as int] == id);
                        }
                    }
                }
                assert forall|x: i64| was.order.contains(x) == was.covers.dom().contains(x) by {
                    assert(was.order.to_set().contains(x) == was.order.contains(x));
                }
            }
        }
        if self.cover_order.len() > COVER_CACHE_LIMIT {
            if let Some(oldest) = self.cover_order.pop_front() {
                self.covers.remove(&oldest);
                self.requested.remove(&oldest);
                proof {
                    let left = order.drop_first();
                    assert(self.cover_order@ =~= left);
                    assert(left.to_set() =~= order.to_set().remove(oldest)) by {
                        assert forall|x: i64| #[trigger]
                            left.contains(x) == (order.contains(x) && x != oldest) by {
                            if order.contains(x) && x != oldest {
                                let k = choose|k: int| 0 <= k < order.len() && order[k] == x;
                                assert(left[k - 1] == x);
                            }
                            if left.contains(x) {
                                let k = choose|k: int| 0 <= k < left.len() && left[k] == x;
                                assert(order[k + 1] == x);
                            }
                        }
                    }
                }
            }
        }
    }

    /// Shows the page if something has changed since it was shown.
    pub fn flush(&mut self, lang: Lang) -> (r: Option<Page>)
        requires
            old(self)@.wf(),
        ensures
            final(self)@.wf(),
            if old(self)@.dirty {
                &&& final(self)@ == rendered(old(self)@)
                &&& r is Some
                &&& r->0@ == page_of(old(self)@, lang)
            } else {
                final(self)@ == old(self)@ && r is None
            },
    {
        if self.dirty {
            Some(self.render(lang))
        } else {
            None
        }
    }
}

/// The books of the first `n` pages, one page after another.
pub open spec fn first_pages(all: Seq<BookView>, rows: nat, n: nat) -> Seq<BookView>
    decreases n,
{
    if n == 0 {
        Seq::empty()
    } else {
        first_pages(all, rows, (n - 1) as nat) + books_on(all, rows, (n - 1) as nat)
    }
}

proof fn lemma_first_pages(all: Seq<BookView>, rows: nat, n: nat)
    requires
        rows > 0,
        n <= pages(all.len(), rows),
    ensures
        first_pages(all, rows, n) == all.take(page_start(all.len(), rows, n)),
    decreases n,
{
    if n > 0 {
        let p = (n - 1) as nat;
        lemma_first_pages(all, rows, p);
        lemma_page_starts_within(all.len(), rows, p);
        assert(n * rows == p * rows + rows) by (nonlinear_arith)
            requires
                n == p + 1,
        ;
        assert(page_end(all.len(), rows, p) == page_start(all.len(), rows, n));
        assert(first_pages(all, rows, n) =~= all.take(page_start(all.len(), rows, n)));
    } else {
        assert(n * rows == 0) by (nonlinear_arith)
            requires
                n == 0,
        ;
        assert(first_pages(all, rows, n) =~= all.take(0));
    }
}

/// The pages, one after another, are the list: no book is left out, shown twice or out of its
/// place. No page holds more books than there are rows, and only an empty list has an empty page.
pub proof fn pages_make_up_the_list(all: Seq<BookView>, rows: nat)
    requires
        rows > 0,
    ensures
        first_pages(all, rows, pages(all.len(), rows)) == all,
        forall|page: nat|
            page < pages(all.len(), rows) ==> {
                &&& (#[trigger] books_on(all, rows, page)).len() <= rows
                &&& all.len() > 0 ==> books_on(all, rows, page).len() > 0
            },
{
    let len = all.len();
    let total = pages(len, rows);
    lemma_first_pages(all, rows, total);
    if len > 0 {
        let q = (len - 1) / rows as int;
        assert(q >= 0 && (q + 1) * rows > len - 1) by (nonlinear_arith)
            requires
                q == (len - 1) / rows as int,
                rows > 0,
                len > 0,
        ;
    }
    assert(page_start(len, rows, total) == len);
    assert(all.take(len as int) =~= all);
    assert forall|page: nat| page < pages(len, rows) implies {
        &&& (#[trigger] books_on(all, rows, page)).len() <= rows
        &&& len > 0 ==> books_on(all, rows, page).len() > 0
    } by {
        lemma_page_starts_within(len, rows, page);
    }
}

/// Turning forward and back again shows the page that was shown before.
pub proof fn turning_back_returns(v: PagerView)
    requires
        v.wf(),
        v.page + 1 < pages(v.all.len(), v.rows),
    ensures
        turned(rendered(turned(v, true)), false).page == v.page,
        turned(rendered(turned(v, true)), false).visible() == v.visible(),
{
}

proof fn lemma_missing(ids: Seq<i64>, kept: Set<i64>, requested: Set<i64>)
    ensures
        missing_of(ids, kept, requested).no_duplicates(),
        forall|id: i64| #[trigger]
            missing_of(ids, kept, requested).contains(id) <==> {
                &&& ids.contains(id)
                &&& !kept.contains(id)
                &&& !requested.contains(id)
            },
    decreases ids.len(),
{
    if ids.len() > 0 {
        let front = ids.drop_last();
        let last = ids.last();
        lemma_missing(front, kept, requested);
        let before = missing_of(front, kept, requested);
        let after = missing_of(ids, kept, requested);
        assert forall|id: i64| #[trigger] after.contains(id) <==> ids.contains(id)
            && !kept.contains(id) && !requested.contains(id) by {
            assert(ids.contains(id) <==> front.contains(id) || id == last) by {
                if front.contains(id) {
                    let k = choose|k: int| 0 <= k < front.len() && front[k] == id;
                    assert(ids[k] == id);
                }
                if ids.contains(id) && id != last {
                    let k = choose|k: int| 0 <= k < ids.len() && ids[k] == id;
                    assert(front[k] == id);
                }
                assert(ids[ids.len() - 1] == last);
            }
            if before.len() < after.len() {
                assert(after[before.len() as int] == last);
                if before.contains(id) {
                    let k = choose|k: int| 0 <= k < before.len() && before[k] == id;
                    assert(after[k] == id);
                }
            }
        }
    }
}

/// A page asks for the covers that it lacks: for none twice, and, however often it is shown, for
/// none that it asked for before. Once it has been shown, each of its books has a cover or has been
/// asked about.
pub proof fn a_page_asks_once(v: PagerView)
    ensures
        missing_in(v).no_duplicates(),
        forall|id: i64| #[trigger]
            missing_in(v).contains(id) <==> {
                &&& v.shows(id)
                &&& !v.covers.contains_key(id)
                &&& !v.requested.contains(id)
            },
        missing_in(rendered(v)).len() == 0,
        forall|id: i64| #[trigger]
            v.shows(id) ==> v.covers.contains_key(id) || rendered(v).requested.contains(id),
{
    let ids = ids_of(v.visible());
    lemma_missing(ids, v.covers.dom(), v.requested);
    assert forall|id: i64| #[trigger] v.shows(id) <==> ids.contains(id) by {
        if v.shows(id) {
            let k = choose|k: int|
                0 <= k < v.visible().len() && (#[trigger] v.visible()[k]).id == id;
            assert(ids[k] == id);
        }
        if ids.contains(id) {
            let k = choose|k: int| 0 <= k < ids.len() && ids[k] == id;
            assert(v.visible()[k].id == id);
        }
    }
    let m = missing_in(v);
    assert forall|id: i64| #[trigger] m.contains(id) <==> v.shows(id) && !v.covers.contains_key(id)
        && !v.requested.contains(id) by {
        assert(v.shows(id) <==> ids.contains(id));
    }
    assert forall|id: i64| #[trigger] v.shows(id) implies v.covers.contains_key(id)
        || rendered(v).requested.contains(id) by {
        assert(m.contains(id) == m.to_set().contains(id));
    }
    let after = rendered(v);
    lemma_missing(ids, v.covers.dom(), after.requested);
    let again = missing_in(after);
    assert(after.visible() == v.visible());
    if again.len() > 0 {
        let id = again[0];
        assert(again.contains(id));
        assert(v.shows(id) <==> ids.contains(id));
    }
}

/// Never more covers than the limit are kept.
pub proof fn covers_stay_bounded(v: PagerView)
    requires
        v.wf(),
    ensures
        v.covers.dom().finite(),
        v.covers.dom().len() <= COVER_CACHE_LIMIT,
{
    v.order.unique_seq_to_set();
    vstd::seq_lib::seq_to_set_is_finite(v.order);
}

/// A cover that another one pushes out is the one that came first, and is no longer taken as asked
/// for: the page that shows its book asks for it again.
pub proof fn evicted_covers_can_return(v: PagerView, id: i64, cover: CachedCover, out: i64)
    requires
        v.wf(),
        v.covers.contains_key(out),
        out != id,
        !with_cover(v, id, cover).covers.contains_key(out),
    ensures
        v.order.len() == COVER_CACHE_LIMIT,
        out == v.order[0],
        v.shows(out) ==> missing_in(with_cover(v, id, cover)).contains(out),
{
    let after = with_cover(v, id, cover);
    assert(v.order.to_set().contains(out));
    assert(after.visible() == v.visible());
    assert(v.shows(out) ==> after.shows(out)) by {
        if v.shows(out) {
            let k = choose|k: int|
                0 <= k < v.visible().len() && (#[trigger] v.visible()[k]).id == out;
            assert(after.visible()[k].id == out);
        }
    }
    a_page_asks_once(after);
    assert(missing_in(after).contains(out) <==> after.shows(out) && !after.covers.contains_key(out)
        && !after.requested.contains(out));
}

/// A cover for a book of another page makes nothing due, and leaves what is on screen as it is but
/// for the cover that it may push out.
pub proof fn other_pages_stay_quiet(v: PagerView, id: i64, cover: CachedCover, lang: Lang)
    requires
        v.wf(),
        !v.shows(id),
    ensures
        with_cover(v, id, cover).dirty == v.dirty,
        v.order.len() < COVER_CACHE_LIMIT || v.covers.contains_key(id) || !v.shows(v.order[0])
            ==> page_of(with_cover(v, id, cover), lang).items == page_of(v, lang).items,
{
    let after = with_cover(v, id, cover);
    assert(after.visible() == v.visible());
    if v.order.len() < COVER_CACHE_LIMIT || v.covers.contains_key(id) || !v.shows(v.order[0]) {
        assert forall|i: int| 0 <= i < v.visible().len() implies item_of(
            after,
            #[trigger] v.visible()[i],
            lang,
        ) == item_of(v, v.visible()[i], lang) by {
            assert(v.shows(v.visible()[i].id));
        }
        assert(page_of(after, lang).items =~= page_of(v, lang).items);
    }
}

} // verus!
