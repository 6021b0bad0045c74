//! Laws of the worker: what it says on each command, which requests it makes, and what it then knows.
use vstd::prelude::*;

use crate::calibre::{book_views, error_text, Book, BookView, Client, Error, ErrorView};
use crate::config::Config;
use crate::cover::{jpeg_picture, CachedCover, Pixels};
use crate::download::{Download, DownloadStep};
use crate::i18n::{BookState, Status};
use crate::jpeg::fit_to_decode;
use crate::json::json_outcome;
use crate::laws::books::{lemma_right_step, right_step};
use crate::laws::covers::{lemma_packs, nibble, within};
use crate::laws::downloads::{goes_to, lemma_goes_to};
use crate::laws::requests::{asks_for_search, asks_for_thumbnail, is_book_address, lemma_book_url,
    lemma_search_url, lemma_thumbnail_url, same_text};
use crate::listing::{list_after_reply, ListStep, ListStepView, Listing};
use crate::net::ConnectError;
use crate::path::file_name;
use crate::text::{lowercase_of, opt_text};
use crate::worker::{cover_from, cover_report, find_row, msg_views, row_id, Cmd, Errand, Msg, MsgView,
    Next, Turn, Worker};

verus! {

/// The number by which the list on screen knows a book is the low half of its id, so that it is the
/// id itself where that is of ordinary size.
pub proof fn a_row_is_known_by_the_low_half(id: i64)
    ensures
        i32::MIN <= id <= i32::MAX ==> row_id(id) == id,
        id & 0xffff_ffff == (row_id(id) as i64) & 0xffff_ffff,
{
    let low = row_id(id);
    assert(low == id as i32);
    assert((id & 0xffff_ffff) == (((id as i32) as i64) & 0xffff_ffff)) by (bit_vector);
}

/// Whether the book at a place is the first that the list on screen knows by the given number.
pub open spec fn is_row(known: Seq<Book>, id: i32, i: int) -> bool {
    &&& 0 <= i < known.len()
    &&& row_id(known[i].id) == id
    &&& forall|j: int| 0 <= j < i ==> row_id((#[trigger] known[j]).id) != id
}

proof fn lemma_find_row(known: Seq<Book>, all: Seq<BookView>, id: i32)
    requires
        all == book_views(known),
    ensures
        match find_row(all, id) {
            Some(book) => exists|i: int| #[trigger] is_row(known, id, i) && known[i]@ == book,
            None => forall|i: int| !#[trigger] is_row(known, id, i),
        },
    decreases known.len(),
{
    if known.len() > 0 {
        assert(all[0] == known[0]@);
        if row_id(known[0].id) == id {
            assert(is_row(known, id, 0));
        } else {
            let rest = known.drop_first();
            assert(all.drop_first() =~= book_views(rest));
            lemma_find_row(rest, all.drop_first(), id);
            if let Some(book) = find_row(all, id) {
                let i = choose|i: int| #[trigger] is_row(rest, id, i) && rest[i]@ == book;
                assert forall|j: int| 0 <= j < i + 1 implies row_id((#[trigger] known[j]).id)
                    != id by {
                    if j > 0 {
                        assert(rest[j - 1] == known[j]);
                    }
                }
                assert(is_row(known, id, i + 1));
            } else {
                assert forall|i: int| !#[trigger] is_row(known, id, i) by {
                    if is_row(known, id, i) {
                        assert forall|j: int| 0 <= j < i - 1 implies row_id(
                            (#[trigger] rest[j]).id,
                        ) != id by {
                            assert(rest[j] == known[j + 1]);
                        }
                        assert(is_row(rest, id, i - 1));
                    }
                }
            }
        }
    }
}

/// Whether a book is the same.
pub open spec fn same_book(a: Book, b: Book) -> bool {
    &&& a.id == b.id
    &&& a.title@ == b.title@
    &&& a.author@ == b.author@
    &&& same_text(a.format, b.format)
}

/// Whether nothing that the worker knows has changed.
pub open spec fn same_worker(a: Worker, b: Worker) -> bool {
    &&& a.cfg@ == b.cfg@
    &&& a.client@ == b.client@
    &&& book_views(a.known@) == book_views(b.known@)
}

/// A command to refresh says that the worker is busy and checks the network, and goes online.
pub proof fn a_refresh_goes_online(worker: &mut Worker, r: Turn)
    requires
        call_ensures(Worker::command, (worker, Cmd::Refresh), r),
    ensures
        r.msgs@.len() == 2,
        r.msgs@[0] == Msg::Busy(true),
        r.msgs@[1] matches Msg::Status(s) && s is CheckingNetwork,
        r.next matches Next::GoOnline(errand) && errand is Refresh,
        same_worker(*old(worker), *final(worker)),
{
    lemma_msgs(r.msgs@);
}

/// The messages are known one by one.
proof fn lemma_msgs(msgs: Seq<Msg>)
    ensures
        msg_views(msgs).len() == msgs.len(),
        forall|i: int| 0 <= i < msgs.len() ==> #[trigger] msg_views(msgs)[i] == msgs[i]@,
{
}

/// A command to download looks the book up by its row in the list that the worker knows. Where it
/// is not there, or has no format, that is said and the command is over; otherwise the book is
/// marked as in progress and fetched once the device is online.
pub proof fn a_download_is_of_the_book_in_its_row(worker: &mut Worker, id: i32, r: Turn)
    requires
        call_ensures(Worker::command, (worker, Cmd::Download(id)), r),
    ensures
        r.msgs@.len() > 0,
        r.msgs@[0] == Msg::Busy(true),
        same_worker(*old(worker), *final(worker)),
        (forall|i: int| !#[trigger] is_row(old(worker).known@, id, i)) ==> {
            &&& r.msgs@.len() == 3
            &&& r.msgs@[1] matches Msg::Status(s) && s is BookNotFound
            &&& r.msgs@[2] == Msg::Busy(false)
            &&& r.next is Wait
        },
        forall|i: int| #[trigger]
            is_row(old(worker).known@, id, i) ==> {
                let book = old(worker).known@[i];
                if book.format is None {
                    &&& r.msgs@.len() == 4
                    &&& r.msgs@[1] == Msg::BookState(id, BookState::NoFormat)
                    &&& r.msgs@[2] matches Msg::Status(Status::NoFormat { title }) && title@
                        == book.title@
                    &&& r.msgs@[3] == Msg::Busy(false)
                    &&& r.next is Wait
                } else {
                    &&& r.msgs@.len() == 3
                    &&& r.msgs@[1] == Msg::BookState(id, BookState::InProgress)
                    &&& r.msgs@[2] matches Msg::Status(Status::Downloading { title }) && title@
                        == book.title@
                    &&& r.next matches Next::GoOnline(Errand::Download { id: row, book: asked })
                        && row == id && same_book(asked, book)
                }
            },
{
    let known = old(worker).known@;
    lemma_msgs(r.msgs@);
    lemma_find_row(known, book_views(known), id);
    assert forall|i: int| #[trigger] is_row(known, id, i) implies find_row(book_views(known), id)
        == Some(known[i]@) by {
        if let Some(book) = find_row(book_views(known), id) {
            let k = choose|k: int| #[trigger] is_row(known, id, k) && known[k]@ == book;
            if k < i {
                assert(row_id(known[k].id) != id);
            }
            if i < k {
                assert(row_id(known[i].id) != id);
            }
        }
    }
}

/// New settings make a new worker: a client for them, and no books, which is what is reported.
pub proof fn new_settings_make_a_new_worker(
    worker: &mut Worker,
    cfg: Config,
    r: Turn,
    client: Client,
)
    requires
        call_ensures(Worker::command, (worker, Cmd::Reconfigure(cfg)), r),
        call_ensures(Client::new, (&cfg,), client),
    ensures
        r.msgs@.len() == 3,
        r.msgs@[0] == Msg::Busy(true),
        r.msgs@[1] matches Msg::Books(books) && books@.len() == 0,
        r.msgs@[2] == Msg::Busy(false),
        r.next is Wait,
        final(worker).cfg@ == cfg@,
        final(worker).client@ == client@,
        final(worker).known@.len() == 0,
{
    lemma_msgs(r.msgs@);
    assert(book_views(final(worker).known@).len() == final(worker).known@.len());
    assert(r.msgs@[1]@ == MsgView::Books(Seq::empty()));
    if let Msg::Books(books) = r.msgs@[1] {
        assert(book_views(books@).len() == books@.len());
    }
}

/// A worker begins with a client for its settings and without books.
pub proof fn a_worker_begins_without_books(cfg: Config, r: Worker, client: Client)
    requires
        call_ensures(Worker::new, (cfg,), r),
        call_ensures(Client::new, (&cfg,), client),
    ensures
        r.cfg@ == cfg@,
        r.client@ == client@,
        r.known@.len() == 0,
{
    assert(book_views(r.known@).len() == r.known@.len());
}

/// Whether the next thing to do is to fetch the cover at a place, in the size of the list and with
/// the credentials of the client; nothing is where there is none left, or no library.
pub open spec fn fetches_cover(next: Next, client: Client, ids: Seq<i64>, at: int) -> bool {
    match client.library {
        Some(library) if at < ids.len() => match next {
            Next::Cover { ids: left, at: place, get } => {
                &&& left@ == ids
                &&& place == at
                &&& asks_for_thumbnail(get.url@, client.base@, library@, ids[at], 88, 132)
                &&& same_text(get.auth, client.auth)
            },
            _ => false,
        },
        _ => next is Wait,
    }
}

proof fn lemma_fetches_cover(next: Next, client: Client, ids: Seq<i64>, at: nat)
    requires
        next@ == cover_from(client@, ids, at),
    ensures
        fetches_cover(next, client, ids, at as int),
{
    if let Some(library) = client.library {
        if at < ids.len() {
            lemma_thumbnail_url(client.base@, library@, ids[at as int], 88, 132);
        }
    }
}

/// A command for covers says nothing and fetches the first.
pub proof fn covers_are_fetched_from_the_first_on(worker: &mut Worker, ids: Vec<i64>, r: Turn)
    requires
        call_ensures(Worker::command, (worker, Cmd::Covers(ids)), r),
    ensures
        r.msgs@.len() == 0,
        fetches_cover(r.next, old(worker).client, ids@, 0),
        same_worker(*old(worker), *final(worker)),
{
    lemma_msgs(r.msgs@);
    lemma_fetches_cover(r.next, old(worker).client, ids@, 0);
}

/// A cover that came in is reported for its book, with the picture of its file; one that could not be
/// had or decoded is passed over. Then the next one is fetched.
pub proof fn a_cover_is_reported_for_its_book(
    worker: &Worker,
    ids: Vec<i64>,
    at: usize,
    reply: Result<Vec<u8>, String>,
    r: Turn,
    x: int,
    y: int,
)
    requires
        call_ensures(Worker::cover, (worker, ids, at, reply), r),
        at < ids@.len(),
    ensures
        fetches_cover(r.next, worker.client, ids@, at + 1),
        r.msgs@.len() <= 1,
        r.msgs@.len() == 1 <==> reply is Ok && fit_to_decode(reply->Ok_0@) && jpeg_picture(
            reply->Ok_0@,
        ) is Some,
        r.msgs@.len() == 1 ==> (r.msgs@[0] matches Msg::Cover { id, cover } && {
            let (width, height, pixels) = jpeg_picture(reply->Ok_0@)->0;
            let shade = nibble(cover.pixels@, cover.width as int, x, y);
            &&& id == ids@[at as int]
            &&& cover.width == width
            &&& cover.height == height
            &&& within(width, height, x, y) ==> match pixels {
                Pixels::Grey(values) => shade == values[y * width + x] as int / 16,
                Pixels::Colour(colours) => {
                    let (red, green, blue) = colours[y * width + x];
                    let luminance = 2126 * red + 7152 * green + 722 * blue;
                    luminance - 170000 < 160000 * shade <= luminance + 10000
                },
            }
        }),
{
    lemma_fetches_cover(r.next, worker.client, ids@, at as nat + 1);
    if r.msgs@.len() == 1 {
        let cover = r.msgs@[0]->cover;
        let (width, height, pixels) = jpeg_picture(reply->Ok_0@)->0;
        if within(width, height, x, y) {
            lemma_packs(cover, reply->Ok_0@, x, y);
        }
    }
}

/// Only a cover that could be decoded is reported, as it is.
pub proof fn decoded_covers_are_reported(
    id: i64,
    decoded: Result<CachedCover, String>,
    r: Vec<Msg>,
)
    requires
        call_ensures(cover_report, (id, decoded), r),
    ensures
        decoded is Err ==> r@.len() == 0,
        decoded matches Ok(cover) ==> r@.len() == 1 && r@[0] == (Msg::Cover { id, cover }),
{
}

/// Once the device is online, a refresh says that the list is loading and searches for as many books
/// as the settings ask for; where it is not, the code is said and the command is over.
pub proof fn a_refresh_searches(
    worker: &Worker,
    result: Result<(), ConnectError>,
    r: Turn,
)
    requires
        call_ensures(Worker::online, (worker, Errand::Refresh, result), r),
    ensures
        result is Ok ==> {
            &&& r.msgs@.len() == 1
            &&& r.msgs@[0] matches Msg::Status(s) && s is LoadingList
            &&& r.next matches Next::List(listing, get) && listing is Search && asks_for_search(
                get.url@,
                worker.client.base@,
                opt_text(worker.client.library),
                worker.client.limit as int,
            ) && same_text(get.auth, worker.client.auth)
        },
        result matches Err(e) ==> {
            &&& r.msgs@.len() == 2
            &&& r.msgs@[0] matches Msg::Status(Status::NetworkFailed(code)) && code == e.0
            &&& r.msgs@[1] == Msg::Busy(false)
            &&& r.next is Wait
        },
{
    lemma_msgs(r.msgs@);
    lemma_search_url(worker.client@);
    if result is Ok {
        assert(msg_views(r.msgs@)[0] == r.msgs@[0]@);
        if let Next::List(listing, get) = r.next {
            assert(listing@ is Search);
            assert(get@.url == get.url@);
        }
    }
}

/// Whether a turn says that a download failed, and why, and is the last.
pub open spec fn fails(r: Turn, id: i32) -> bool {
    &&& r.msgs@.len() == 3
    &&& r.msgs@[0] == Msg::BookState(id, BookState::Failed)
    &&& r.msgs@[1] is Status
    &&& r.msgs@[2] == Msg::Busy(false)
    &&& r.next is Wait
}

/// Once the device is online, the book is downloaded into the directory of the settings, under its
/// name and in its format, from the library and with the credentials of the client, beginning with
/// the directory. Where it is not online, or the book cannot be asked for, the download has failed,
/// and it is said why.
pub proof fn a_download_begins_with_the_directory(
    worker: &Worker,
    id: i32,
    book: Book,
    result: Result<(), ConnectError>,
    r: Turn,
    refused: Error,
    why: String,
)
    requires
        call_ensures(Worker::online, (worker, Errand::Download { id, book }, result), r),
        call_ensures(Error::message, (&refused,), why),
        book.format is None ==> refused is NoFormat,
        book.format is Some && worker.client.library is None ==> refused is NoLibrary,
    ensures
        result matches Err(e) ==> {
            &&& fails(r, id)
            &&& r.msgs@[1] matches Msg::Status(Status::NetworkFailed(code)) && code == e.0
        },
        result is Ok && (book.format is None || worker.client.library is None) ==> {
            &&& fails(r, id)
            &&& r.msgs@[1] matches Msg::Status(Status::DownloadFailed(text)) && text@ == why@
        },
        result is Ok && book.format is Some && worker.client.library is Some ==> {
            &&& r.msgs@.len() == 0
            &&& r.next matches Next::Download { id: row, plan, step } && {
                &&& row == id
                &&& step is MakeDir
                &&& same_text(plan.get.auth, worker.client.auth)
                &&& is_book_address(
                    plan.get.url@,
                    worker.client.base@,
                    worker.client.library->0@,
                    book.format->0@,
                    book.id,
                )
                &&& exists|stem: Seq<char>|
                    goes_to(
                        plan,
                        book,
                        worker.cfg.download_dir@,
                        lowercase_of(book.format->0@),
                        stem,
                    )
            }
        },
{
    lemma_msgs(r.msgs@);
    if result is Ok && book.format is Some && worker.client.library is Some {
        let plan = r.next->plan;
        lemma_book_url(
            worker.client.base@,
            worker.client.library->0@,
            book.format->0@,
            book.id,
        );
        lemma_goes_to(plan, book, worker.cfg.download_dir@, lowercase_of(book.format->0@));
    }
}

/// A step of a download leads to the next one of the same download, without a word; when it is done
/// the book is marked as done and its file is named, and when it has failed the book is marked as
/// failed and the reason is said.
pub proof fn a_download_goes_on_to_its_end(
    worker: &Worker,
    id: i32,
    plan: Download,
    step: DownloadStep,
    outcome: Result<bool, String>,
    r: Turn,
    next: DownloadStep,
    name: String,
)
    requires
        call_ensures(Worker::downloaded, (worker, id, plan, step, outcome), r),
        call_ensures(DownloadStep::next, (step, outcome), next),
        exists|target: &str| target@ == plan.target@ && call_ensures(file_name, (target,), name),
    ensures
        match next {
            DownloadStep::Done => {
                &&& r.msgs@.len() == 3
                &&& r.msgs@[0] == Msg::BookState(id, BookState::Done)
                &&& r.msgs@[1] matches Msg::Status(Status::Saved { name: shown }) && shown@ == name@
                &&& r.msgs@[2] == Msg::Busy(false)
                &&& r.next is Wait
            },
            DownloadStep::Failed(e) => {
                &&& fails(r, id)
                &&& r.msgs@[1] matches Msg::Status(Status::DownloadFailed(text)) && text@ == e@
            },
            _ => {
                &&& r.msgs@.len() == 0
                &&& r.next matches Next::Download { id: row, plan: same, step: then } && row == id
                    && same@ == plan@ && then@ == next@
            },
        },
{
    lemma_msgs(r.msgs@);
}

/// Whether a turn reports a step of fetching the list: another request without a word, the books
/// with their number, which are then known, or why there is no list, what was known staying known.
pub open spec fn reports_step(before: Worker, step: ListStepView, r: Turn, after: Worker) -> bool {
    match step {
        ListStepView::Fetch(listing, get) => {
            &&& r.msgs@.len() == 0
            &&& r.next matches Next::List(then, request) && then@ == listing && request@ == get
            &&& book_views(after.known@) == book_views(before.known@)
        },
        ListStepView::Done(books) => {
            &&& r.msgs@.len() == 3
            &&& r.msgs@[0] matches Msg::Status(Status::BookCount(n)) && n == books.len()
            &&& r.msgs@[1] matches Msg::Books(list) && book_views(list@) == books
            &&& r.msgs@[2] == Msg::Busy(false)
            &&& r.next is Wait
            &&& book_views(after.known@) == books
        },
        ListStepView::Failed(e) => {
            &&& r.msgs@.len() == 2
            &&& r.msgs@[0] matches Msg::Status(Status::ListFailed(text)) && text@
                == error_text(e)
            &&& r.msgs@[1] == Msg::Busy(false)
            &&& r.next is Wait
            &&& book_views(after.known@) == book_views(before.known@)
        },
    }
}

/// A step of fetching the list is reported as it is.
pub proof fn steps_of_the_list_are_reported(worker: &mut Worker, step: ListStep, r: Turn)
    requires
        call_ensures(Worker::list_step, (worker, step), r),
    ensures
        reports_step(*old(worker), step@, r, *final(worker)),
        final(worker).cfg@ == old(worker).cfg@,
        final(worker).client@ == old(worker).client@,
{
    lemma_msgs(r.msgs@);
    lemma_count(r, step@);
}

/// The number of the books that are reported.
proof fn lemma_count(r: Turn, step: ListStepView)
    ensures
        match step {
            ListStepView::Done(books) => r.msgs@.len() > 1 && r.msgs@[1]@ == MsgView::Books(books)
                ==> books.len() as usize == books.len(),
            _ => true,
        },
{
    if let ListStepView::Done(books) = step {
        if r.msgs@.len() > 1 && r.msgs@[1]@ == MsgView::Books(books) {
            if let Msg::Books(list) = r.msgs@[1] {
                assert(book_views(list@).len() == list@.len());
                assert(list.len() == list@.len());
            }
        }
    }
}

/// A reply on the list goes on with it, and what that comes to is reported.
pub proof fn replies_on_the_list_are_reported(
    worker: &mut Worker,
    listing: Listing,
    reply: Result<Vec<u8>, String>,
    r: Turn,
)
    requires
        call_ensures(Worker::listed, (worker, listing, reply), r),
    ensures
        final(worker).cfg@ == old(worker).cfg@,
        exists|step: ListStepView|
            {
                &&& #[trigger] reports_step(*old(worker), step, r, *final(worker))
                &&& match reply {
                    Err(e) => {
                        &&& step == ListStepView::Failed(ErrorView::Io(e@))
                        &&& final(worker).client@ == old(worker).client@
                    },
                    Ok(bytes) => match json_outcome(bytes@) {
                        Err(e) => {
                            &&& step == ListStepView::Failed(ErrorView::Json(e))
                            &&& final(worker).client@ == old(worker).client@
                        },
                        Ok(doc) => right_step(
                            old(worker).client@,
                            listing@,
                            doc,
                            final(worker).client@,
                            step,
                        ),
                    },
                }
            },
{
    lemma_msgs(r.msgs@);
    let given: Result<Seq<u8>, Seq<char>> = match reply {
        Ok(bytes) => Ok(bytes@),
        Err(e) => Err(e@),
    };
    let (client, step) = list_after_reply(old(worker).client@, listing@, given);
    lemma_count(r, step);
    if let Ok(bytes) = reply {
        if let Ok(doc) = json_outcome(bytes@) {
            lemma_right_step(old(worker).client@, listing@, doc);
        }
    }
    assert(reports_step(*old(worker), step, r, *final(worker)));
}

} // verus!
