//! Laws of the list on screen: which books a page shows and how, which covers it asks for, and what
//! turning pages, new lists, states and covers do to it.
use vstd::prelude::*;

use crate::calibre::{book_views, Book, BookView};
use crate::cover::CachedCover;
use crate::i18n::{book_state_text, unknown_author_text, untitled_text, BookState, Lang};
use crate::laws::books::stands_before;
use crate::laws::covers::{lemma_shows_cover, shows_cover};
use crate::laws::texts::says_unsigned;
use crate::number::{decimal, decimal_reads_back};
use crate::pager::{ids_of, missing_in, missing_of, page_end, page_of,
    page_start, pages, picture_of, rendered, turned, with_books, with_rows, BookItem,
    Page, Pager, PagerView};
use crate::worker::row_id;

verus! {

/// Whether the numbers of a page and of all pages are right: as many pages as the books take, no
/// books taking one.
pub open spec fn takes_pages(len: nat, rows: nat, total: int) -> bool {
    &&& total >= 1
    &&& len <= total * rows
    &&& total == 1 || (total - 1) * rows < len
}

proof fn lemma_takes_pages(len: nat, rows: nat)
    requires
        rows > 0,
    ensures
        takes_pages(len, rows, pages(len, rows) as int),
{
    if len > 0 {
        let q = (len - 1) / rows as int;
        assert(q >= 0 && q * rows <= len - 1 && (q + 1) * rows > len - 1) by (nonlinear_arith)
            requires
                q == (len - 1) / rows as int,
                rows > 0,
                len > 0,
        ;
    } else {
        assert(1 * rows >= 0);
    }
}

/// The list takes as many pages as its books fill.
pub proof fn the_list_takes_the_pages_it_fills(pager: &Pager, r: usize)
    requires
        call_ensures(Pager::total_pages, (pager,), r),
        pager@.wf(),
    ensures
        takes_pages(pager.all@.len(), pager.rows as nat, r as int),
{
    lemma_takes_pages(pager.all@.len(), pager.rows as nat);
    assert(book_views(pager.all@).len() == pager.all@.len());
}

/// Whether a page covers the books from `start` to `end`: as many as there are rows, behind those of
/// the pages before it, or those that are left.
pub open spec fn spans(len: nat, rows: nat, page: nat, start: int, end: int) -> bool {
    &&& start == page * rows
    &&& start <= end <= len
    &&& end - start <= rows
    &&& end - start == rows || end == len
}

proof fn lemma_spans(v: PagerView)
    requires
        v.wf(),
    ensures
        spans(
            v.all.len(),
            v.rows,
            v.page,
            page_start(v.all.len(), v.rows, v.page),
            page_end(v.all.len(), v.rows, v.page),
        ),
        v.all.len() > 0 ==> v.visible().len() > 0,
{
    lemma_takes_pages(v.all.len(), v.rows);
    let total = pages(v.all.len(), v.rows) as int;
    if v.all.len() > 0 {
        assert(v.page * v.rows <= (total - 1) * v.rows) by (nonlinear_arith)
            requires
                v.page <= total - 1,
        ;
    } else {
        assert(total == 1) by {
            if total > 1 {
                assert((total - 1) * v.rows >= 0) by (nonlinear_arith)
                    requires
                        total > 1,
                        v.rows > 0,
                ;
            }
        }
        assert(v.page * v.rows == 0) by (nonlinear_arith)
            requires
                v.page == 0,
        ;
    }
}

/// The range of a page begins behind the pages before it.
pub proof fn a_page_begins_behind_those_before(pager: &Pager, r: (usize, usize))
    requires
        call_ensures(Pager::page_range, (pager,), r),
        pager@.wf(),
    ensures
        spans(pager.all@.len(), pager.rows as nat, pager.page as nat, r.0 as int, r.1 as int),
{
    lemma_spans(pager@);
    assert(book_views(pager.all@).len() == pager.all@.len());
}

/// A book is visible exactly where it is among those of the page.
pub proof fn visible_books_are_on_the_page(pager: &Pager, id: i64, r: bool)
    requires
        call_ensures(Pager::is_visible, (pager, id), r),
        pager@.wf(),
    ensures
        r <==> exists|i: int|
            {
                &&& pager.page * pager.rows <= i < (pager.page + 1) * pager.rows
                &&& 0 <= i < pager.all@.len()
                &&& (#[trigger] pager.all@[i]).id == id
            },
{
    let v = pager@;
    lemma_spans(v);
    let start = page_start(v.all.len(), v.rows, v.page);
    assert((pager.page + 1) * pager.rows == pager.page * pager.rows + pager.rows)
        by (nonlinear_arith);
    if r {
        let k = choose|k: int| 0 <= k < v.visible().len() && (#[trigger] v.visible()[k]).id == id;
        assert(pager.all@[start + k].id == id);
    }
    if exists|i: int|
        {
            &&& pager.page * pager.rows <= i < (pager.page + 1) * pager.rows
            &&& 0 <= i < pager.all@.len()
            &&& (#[trigger] pager.all@[i]).id == id
        } {
        let i = choose|i: int|
            {
                &&& pager.page * pager.rows <= i < (pager.page + 1) * pager.rows
                &&& 0 <= i < pager.all@.len()
                &&& (#[trigger] pager.all@[i]).id == id
            };
        assert(v.visible()[i - start].id == id);
    }
}

/// Whether a row shows a book: its number, its title and author, or what stands for them where they are missing,
/// its format or a dash, what became of its download, and its cover if there is one.
pub open spec fn shows_book(v: PagerView, book: BookView, lang: Lang, item: BookItem) -> bool {
    &&& item.id == row_id(book.id)
    &&& item.title@ == if book.title.len() > 0 {
        book.title
    } else {
        untitled_text(lang)
    }
    &&& item.author@ == if book.author.len() > 0 {
        book.author
    } else {
        unknown_author_text(lang)
    }
    &&& item.format@ == match book.format {
        Some(format) => format,
        None => "—"@,
    }
    &&& !v.states.contains_key(book.id) ==> item.state@.len() == 0
    &&& v.states.contains_key(book.id) ==> item.state@ == book_state_text(
        v.states[book.id],
        lang,
    )
    &&& item.cover is Some <==> v.covers.contains_key(book.id)
    &&& item.cover matches Some(picture) ==> {
        let cover = v.covers[book.id];
        &&& picture.width == cover.width
        &&& picture.height == cover.height
        &&& shows_cover(picture.pixels@, cover)
    }
}

/// Whether a text has the numbers of the page and of all pages in it, in this order.
pub open spec fn counts(label: Seq<char>, page: int, total: int) -> bool {
    exists|before: Seq<char>, first: Seq<char>, second: Seq<char>|
        {
            &&& label == #[trigger] (before + first + " / "@ + second)
            &&& says_unsigned(first, page)
            &&& says_unsigned(second, total)
            &&& before.len() > 0 && before.last() == ' '
        }
}

/// Whether the covers asked for are those of the books on the page that are neither kept nor asked
/// for, each once and in the order of the page.
pub open spec fn asks_for_covers(
    missing: Seq<i64>,
    on_page: Seq<BookView>,
    kept: Set<i64>,
    requested: Set<i64>,
) -> bool {
    let ids = Seq::new(on_page.len(), |i: int| on_page[i].id);
    &&& forall|id: i64| #[trigger]
        missing.contains(id) <==> ids.contains(id) && !kept.contains(id) && !requested.contains(id)
    &&& forall|k: int, l: int, i: int|
        0 <= k < l < missing.len() && 0 <= i < ids.len() && #[trigger] ids[i] == #[trigger] missing[l]
            ==> stands_before(#[trigger] missing[k], ids, i)
}

/// Whether a page is the one that is due: the books of the page in their order, each in a row of its
/// own, the numbers of the page and of all pages, whether there is one before and one behind, and
/// the covers to ask for.
pub open spec fn shows_page(v: PagerView, lang: Lang, page: Page) -> bool {
    let start = (v.page * v.rows) as int;
    let end = if start + v.rows < v.all.len() {
        start + v.rows
    } else {
        v.all.len() as int
    };
    &&& page.items@.len() == end - start
    &&& forall|k: int|
        0 <= k < page.items@.len() ==> shows_book(
            v,
            v.all[start + k],
            lang,
            #[trigger] page.items@[k],
        )
    &&& v.all.len() == 0 ==> page.label@.len() == 0
    &&& v.all.len() > 0 ==> exists|total: int| #[trigger]
        takes_pages(v.all.len(), v.rows, total) && counts(page.label@, v.page as int + 1, total)
    &&& page.has_prev <==> v.page > 0
    &&& page.has_next <==> end < v.all.len()
    &&& asks_for_covers(
        page.missing@,
        v.all.subrange(start, end),
        v.covers.dom(),
        v.requested,
    )
}

proof fn lemma_missing_order(ids: Seq<i64>, kept: Set<i64>, requested: Set<i64>)
    ensures
        ({
            let missing = missing_of(ids, kept, requested);
            &&& forall|id: i64| #[trigger]
                missing.contains(id) <==> ids.contains(id) && !kept.contains(id)
                    && !requested.contains(id)
            &&& forall|k: int, l: int, i: int|
                0 <= k < l < missing.len() && 0 <= i < ids.len() && #[trigger] ids[i]
                    == #[trigger] missing[l] ==> stands_before(#[trigger] missing[k], ids, i)
        }),
    decreases ids.len(),
{
    let missing = missing_of(ids, kept, requested);
    if ids.len() > 0 {
        let front = ids.drop_last();
        let last = ids.last();
        let before = missing_of(front, kept, requested);
        lemma_missing_order(front, kept, requested);
        assert forall|id: i64| ids.contains(id) <==> front.contains(id) || id == last by {
            if front.contains(id) {
                let k = choose|k: int| 0 <= k < front.len() && front[k] == id;
                assert(ids[k] == id);
            }
            if ids.contains(id) && id != last {
                let k = choose|k: int| 0 <= k < ids.len() && ids[k] == id;
                assert(front[k] == id);
            }
            assert(ids[ids.len() - 1] == last);
        }
        assert forall|id: i64| #[trigger] missing.contains(id) <==> ids.contains(id)
            && !kept.contains(id) && !requested.contains(id) by {
            if before.len() < missing.len() {
                assert(missing[before.len() as int] == last);
                if before.contains(id) {
                    let k = choose|k: int| 0 <= k < before.len() && before[k] == id;
                    assert(missing[k] == id);
                }
            }
        }
        assert forall|k: int, l: int, i: int|
            0 <= k < l < missing.len() && 0 <= i < ids.len() && #[trigger] ids[i]
                == #[trigger] missing[l] implies stands_before(#[trigger] missing[k], ids, i) by {
            assert(missing[k] == before[k]);
            assert(before.contains(before[k]));
            assert(front.contains(before[k]));
            let m = choose|m: int| 0 <= m < front.len() && front[m] == before[k];
            if l < before.len() {
                assert(missing[l] == before[l]);
                if i < front.len() {
                    assert(front[i] == ids[i]);
                    assert(stands_before(before[k], front, i));
                    let j = choose|j: int| 0 <= j < i && #[trigger] front[j] == before[k];
                    assert(ids[j] == missing[k]);
                } else {
                    assert(before.contains(before[l]));
                    assert(front.contains(before[l]));
                    let n = choose|n: int| 0 <= n < front.len() && front[n] == before[l];
                    assert(stands_before(before[k], front, n));
                    let j = choose|j: int| 0 <= j < n && #[trigger] front[j] == before[k];
                    assert(ids[j] == missing[k]);
                    assert(front[n] != before[k]);
                }
            } else {
                assert(missing[l] == last);
                assert(!before.contains(last));
                if i < front.len() {
                    assert(front[i] == last);
                    assert(front.contains(last));
                    assert(before.contains(last));
                }
                assert(ids[m] == missing[k]);
                assert(missing[k] != last);
            }
        }
    }
}

/// The page that is due, part by part.
pub proof fn lemma_shows_page(v: PagerView, lang: Lang, page: Page)
    requires
        v.wf(),
        page@ == page_of(v, lang),
    ensures
        shows_page(v, lang, page),
{
    lemma_spans(v);
    lemma_takes_pages(v.all.len(), v.rows);
    let len = v.all.len();
    let start = (v.page * v.rows) as int;
    let end = if start + v.rows < len {
        start + v.rows
    } else {
        len as int
    };
    let total = pages(len, v.rows) as int;
    let p = page_of(v, lang);
    assert(v.visible() =~= v.all.subrange(start, end));
    assert(page@.items.len() == page.items@.len());
    assert forall|k: int| 0 <= k < page.items@.len() implies shows_book(
        v,
        v.all[start + k],
        lang,
        #[trigger] page.items@[k],
    ) by {
        let item = page.items@[k];
        let book = v.all[start + k];
        assert(page@.items[k] == item@);
        assert(p.items[k] == item@);
        assert(v.visible()[k] == book);
        if v.covers.contains_key(book.id) {
            let cover = v.covers[book.id];
            let picture = item.cover->0;
            assert(cover.wf());
            assert((picture.width, picture.height, picture.pixels@) == picture_of(cover));
            lemma_shows_cover(picture.pixels@, cover);
        }
    }
    if len > 0 {
        let first = decimal((v.page + 1) as nat);
        let second = decimal(total as nat);
        decimal_reads_back((v.page + 1) as nat);
        decimal_reads_back(total as nat);
        reveal_strlit("p. ");
        reveal_strlit("стр. ");
        let before = match lang {
            Lang::En => "p. "@,
            Lang::Ru => "стр. "@,
        };
        assert(page.label@ == before + first + " / "@ + second);
        assert(counts(page.label@, v.page as int + 1, total));
        assert(takes_pages(len, v.rows, total));
    }
    assert((v.page + 1) * v.rows == v.page * v.rows + v.rows) by (nonlinear_arith);
    assert(p.has_next <==> end < len) by {
        if v.page + 1 < total {
            assert((v.page + 1) * v.rows <= (total - 1) * v.rows) by (nonlinear_arith)
                requires
                    v.page + 1 <= total - 1,
            ;
        } else {
            assert(total * v.rows <= (v.page + 1) * v.rows) by (nonlinear_arith)
                requires
                    total <= v.page + 1,
            ;
        }
    }
    lemma_missing_order(ids_of(v.visible()), v.covers.dom(), v.requested);
    assert(ids_of(v.visible()) =~= Seq::new(
        v.all.subrange(start, end).len(),
        |i: int| v.all.subrange(start, end)[i].id,
    ));
}

/// Whether nothing but what has been asked for, and that nothing is due any more, tells two states
/// apart: the covers that a page asked for have been added.
pub open spec fn after_showing(v: PagerView, page: Page, after: PagerView) -> bool {
    &&& after.all == v.all
    &&& after.covers == v.covers
    &&& after.order == v.order
    &&& after.states == v.states
    &&& after.page == v.page
    &&& after.rows == v.rows
    &&& !after.dirty
    &&& forall|id: i64| #[trigger]
        after.requested.contains(id) <==> v.requested.contains(id) || page.missing@.contains(id)
}

/// What showing a page leaves.
pub proof fn lemma_after_showing(v: PagerView, page: Page, lang: Lang)
    requires
        page@ == page_of(v, lang),
    ensures
        after_showing(v, page, rendered(v)),
{
    assert forall|id: i64| #[trigger] rendered(v).requested.contains(id) <==> v.requested.contains(
        id,
    ) || page.missing@.contains(id) by {
        assert(page.missing@ == missing_in(v));
        assert(page.missing@.to_set().contains(id) <==> page.missing@.contains(id));
    }
}

/// Showing gives the page that is due and notes what was asked for; nothing else changes.
pub proof fn showing_gives_the_page(pager: &mut Pager, lang: Lang, r: Page)
    requires
        call_ensures(Pager::render, (pager, lang), r),
        old(pager)@.wf(),
    ensures
        shows_page(old(pager)@, lang, r),
        after_showing(old(pager)@, r, final(pager)@),
{
    lemma_shows_page(old(pager)@, lang, r);
    lemma_after_showing(old(pager)@, r, lang);
}

/// Something that has changed is shown, and nothing is where nothing has.
pub proof fn changes_are_shown(pager: &mut Pager, lang: Lang, r: Option<Page>)
    requires
        call_ensures(Pager::flush, (pager, lang), r),
        old(pager)@.wf(),
    ensures
        r is Some <==> old(pager).dirty,
        r is None ==> final(pager)@ == old(pager)@,
        r matches Some(page) ==> shows_page(old(pager)@, lang, page) && after_showing(
            old(pager)@,
            page,
            final(pager)@,
        ),
{
    if let Some(page) = r {
        lemma_shows_page(old(pager)@, lang, page);
        lemma_after_showing(old(pager)@, page, lang);
    }
}

/// Whether a state is that of a list just come in: its books from the first page on, nothing known of
/// them, and nothing asked for.
pub open spec fn begins(v: PagerView, books: Seq<BookView>, rows: nat) -> bool {
    &&& v.all == books
    &&& v.page == 0
    &&& v.rows == rows
    &&& forall|id: i64| !#[trigger] v.covers.contains_key(id)
    &&& forall|id: i64| !#[trigger] v.states.contains_key(id)
    &&& forall|id: i64| !#[trigger] v.requested.contains(id)
}

/// A new list is shown from its first page on, without anything of the old one.
pub proof fn a_new_list_replaces_the_old(pager: &mut Pager, books: Vec<Book>, lang: Lang, r: Page)
    requires
        call_ensures(Pager::set_books, (pager, books, lang), r),
        old(pager)@.wf(),
    ensures
        exists|v: PagerView|
            {
                &&& #[trigger] begins(v, book_views(books@), old(pager).rows as nat)
                &&& shows_page(v, lang, r)
                &&& after_showing(v, r, final(pager)@)
            },
{
    lemma_new_list(old(pager)@, book_views(books@), lang, r);
}

/// What a new list comes to.
pub proof fn lemma_new_list(was: PagerView, books: Seq<BookView>, lang: Lang, page: Page)
    requires
        was.wf(),
        page@ == page_of(with_books(was, books), lang),
    ensures
        ({
            let v = with_books(was, books);
            &&& begins(v, books, was.rows)
            &&& shows_page(v, lang, page)
            &&& after_showing(v, page, rendered(v))
        }),
{
    let v = with_books(was, books);
    lemma_takes_pages(v.all.len(), v.rows);
    assert(v.order.to_set() =~= v.covers.dom());
    assert(v.wf());
    lemma_shows_page(v, lang, page);
    lemma_after_showing(v, page, lang);
}

/// A new number of rows, at least one, shows the page where it is still there, and otherwise the
/// last one; the same number shows nothing.
pub proof fn new_rows_keep_the_page(pager: &mut Pager, rows: usize, lang: Lang, r: Option<Page>)
    requires
        call_ensures(Pager::set_rows, (pager, rows, lang), r),
        old(pager)@.wf(),
    ensures
        final(pager).rows == if rows == 0 {
            1
        } else {
            rows
        },
        r is Some <==> final(pager).rows != old(pager).rows,
        r is None ==> final(pager)@ == old(pager)@,
        r matches Some(page) ==> {
            let v = PagerView {
                rows: final(pager).rows as nat,
                page: final(pager).page as nat,
                ..old(pager)@
            };
            &&& shows_page(v, lang, page)
            &&& after_showing(v, page, final(pager)@)
            &&& final(pager).page <= old(pager).page
            &&& final(pager).page < old(pager).page ==> takes_pages(
                v.all.len(),
                v.rows,
                final(pager).page + 1,
            )
        },
{
    let v = with_rows(old(pager)@, rows as nat);
    assert(final(pager)@.rows == final(pager).rows && old(pager)@.rows == old(pager).rows);
    assert(final(pager)@.page == final(pager).page && old(pager)@.page == old(pager).page);
    if let Some(page) = r {
        lemma_takes_pages(v.all.len(), v.rows);
        assert(v.wf());
        lemma_shows_page(v, lang, page);
        lemma_after_showing(v, page, lang);
    }
}

/// Turning goes one page on or back, where there is one, and shows it; otherwise nothing changes.
pub proof fn turning_goes_one_page(pager: &mut Pager, forward: bool, lang: Lang, r: Option<Page>)
    requires
        call_ensures(Pager::turn, (pager, forward, lang), r),
        old(pager)@.wf(),
    ensures
        r is Some <==> if forward {
            (old(pager).page + 1) * old(pager).rows < old(pager).all@.len()
        } else {
            old(pager).page > 0
        },
        r is None ==> final(pager)@ == old(pager)@,
        r matches Some(page) ==> {
            let v = PagerView { page: final(pager).page as nat, ..old(pager)@ };
            &&& final(pager).page == if forward {
                old(pager).page + 1
            } else {
                old(pager).page - 1
            }
            &&& shows_page(v, lang, page)
            &&& after_showing(v, page, final(pager)@)
        },
{
    let was = old(pager)@;
    let v = turned(was, forward);
    lemma_takes_pages(was.all.len(), was.rows);
    let total = pages(was.all.len(), was.rows) as int;
    assert(book_views(old(pager).all@).len() == old(pager).all@.len());
    assert(final(pager)@.page == final(pager).page && was.page == old(pager).page);
    if was.page + 1 < total {
        assert((was.page + 1) * was.rows <= (total - 1) * was.rows) by (nonlinear_arith)
            requires
                was.page + 1 <= total - 1,
        ;
    } else {
        assert(total * was.rows <= (was.page + 1) * was.rows) by (nonlinear_arith)
            requires
                total <= was.page + 1,
        ;
    }
    if let Some(page) = r {
        assert(v.wf());
        lemma_shows_page(v, lang, page);
        lemma_after_showing(v, page, lang);
    }
}

/// The state of a download is noted for its book alone, and is to be shown.
pub proof fn a_state_is_noted_for_its_book(pager: &mut Pager, id: i64, state: BookState, other: i64)
    requires
        call_ensures(Pager::set_state, (pager, id, state), ()),
    ensures
        final(pager).dirty,
        final(pager)@.states.contains_key(id) && final(pager)@.states[id] == state,
        other != id ==> {
            &&& final(pager)@.states.contains_key(other) <==> old(pager)@.states.contains_key(other)
            &&& final(pager)@.states.contains_key(other) ==> final(pager)@.states[other]
                == old(pager)@.states[other]
        },
        final(pager)@.all == old(pager)@.all,
        final(pager)@.covers == old(pager)@.covers,
        final(pager)@.order == old(pager)@.order,
        final(pager)@.requested == old(pager)@.requested,
        final(pager)@.page == old(pager)@.page,
        final(pager)@.rows == old(pager)@.rows,
{
}

/// A cover is kept for its book and is to be shown if the book is on the page. Another cover is
/// pushed out only where there are 64 others, and then the one that came first, which may be asked
/// for again; nothing else changes.
pub proof fn a_cover_is_kept_for_its_book(
    pager: &mut Pager,
    id: i64,
    cover: CachedCover,
    other: i64,
)
    requires
        call_ensures(Pager::set_cover, (pager, id, cover), ()),
        old(pager)@.wf(),
    ensures
        ({
            let before = old(pager)@;
            let after = final(pager)@;
            let pushed = !before.covers.contains_key(id) && before.order.len() == 64;
            &&& after.covers.contains_key(id) && after.covers[id] == cover
            &&& other != id ==> {
                &&& after.covers.contains_key(other) <==> before.covers.contains_key(other) && !(
                pushed && other == before.order[0])
                &&& after.covers.contains_key(other) ==> after.covers[other] == before.covers[other]
            }
            &&& after.requested.contains(other) <==> before.requested.contains(other) && !(pushed
                && other == before.order[0])
            &&& before.covers.contains_key(id) ==> after.order == before.order
            &&& !before.covers.contains_key(id) ==> after.order.last() == id
            &&& after.dirty <==> before.dirty || before.shows(id)
            &&& after.all == before.all
            &&& after.states == before.states
            &&& after.page == before.page
            &&& after.rows == before.rows
        }),
{
    let before = old(pager)@;
    if !before.covers.contains_key(id) {
        assert(!before.order.to_set().contains(id));
        assert(!before.order.contains(id));
    }
}

/// The list starts empty, with a single row.
pub proof fn the_list_starts_empty(r: Pager)
    requires
        call_ensures(Pager::new, (), r),
    ensures
        r.all@.len() == 0,
        begins(r@, Seq::empty(), 1),
        !r.dirty,
{
    assert(r@.all.len() == r.all@.len());
}

} // verus!
