//! The worker: what it does on each command, and what it reports.
//!
//! It decides; the network and the disk are used outside. Each turn gives the messages to send, in
//! order, and what to do next; the outcome of that begins the next turn. No sentences pass here:
//! what happened is reported as data and becomes text on the UI side.
use vstd::prelude::*;

use crate::calibre::{book_views, client_for, copy_books, error_text, search_url, thumbnail_url,
    Book, BookView, Client, ClientView, Get, GetView};
use crate::config::{Config, ConfigView};
use crate::cover::{jpeg_picture, CachedCover, COVER_HEIGHT, COVER_WIDTH};
use crate::download::{download_after, planned, Download, DownloadStep, DownloadStepView,
    DownloadView};
use crate::i18n::{BookState, Status, StatusView};
use crate::jpeg::fit_to_decode;
use crate::listing::{list_after_reply, listing_wf, ListStep, ListStepView, Listing, ListingView};
use crate::net::ConnectError;
use crate::path::{file_name, file_name_of};
use crate::text::lowercase_of;

verus! {

/// A command of the UI to the worker.
#[derive(Debug)]
pub enum Cmd {
    Refresh,
    Download(i32),
    Reconfigure(Config),
    Covers(Vec<i64>),
}

/// A command of the UI to the worker.
#[verifier::ext_equal]
pub enum CmdView {
    Refresh,
    Download(i32),
    Reconfigure(ConfigView),
    Covers(Seq<i64>),
}

impl View for Cmd {
    type V = CmdView;

    open spec fn view(&self) -> CmdView {
        match *self {
            Cmd::Refresh => CmdView::Refresh,
            Cmd::Download(id) => CmdView::Download(id),
            Cmd::Reconfigure(cfg) => CmdView::Reconfigure(cfg@),
            Cmd::Covers(ids) => CmdView::Covers(ids@),
        }
    }
}

/// A message of the worker to the UI.
#[derive(Debug)]
pub enum Msg {
    Status(Status),
    Busy(bool),
    Books(Vec<Book>),
    BookState(i32, BookState),
    Cover { id: i64, cover: CachedCover },
}

/// A message of the worker to the UI.
#[verifier::ext_equal]
pub enum MsgView {
    Status(StatusView),
    Busy(bool),
    Books(Seq<BookView>),
    BookState(i32, BookState),
    Cover { id: i64, width: u32, height: u32, pixels: Seq<u8> },
}

impl View for Msg {
    type V = MsgView;

    open spec fn view(&self) -> MsgView {
        match *self {
            Msg::Status(s) => MsgView::Status(s@),
            Msg::Busy(b) => MsgView::Busy(b),
            Msg::Books(books) => MsgView::Books(book_views(books@)),
            Msg::BookState(id, state) => MsgView::BookState(id, state),
            Msg::Cover { id, cover } => MsgView::Cover {
                id,
                width: cover.width,
                height: cover.height,
                pixels: cover.pixels@,
            },
        }
    }
}

/// The messages of a list.
pub open spec fn msg_views(msgs: Seq<Msg>) -> Seq<MsgView> {
    Seq::new(msgs.len(), |i: int| msgs[i]@)
}

/// What the network is needed for.
#[derive(Debug)]
pub enum Errand {
    Refresh,
    Download { id: i32, book: Book },
}

/// What the network is needed for.
#[verifier::ext_equal]
pub enum ErrandView {
    Refresh,
    Download { id: i32, book: BookView },
}

impl View for Errand {
    type V = ErrandView;

    open spec fn view(&self) -> ErrandView {
        match *self {
            Errand::Refresh => ErrandView::Refresh,
            Errand::Download { id, book } => ErrandView::Download { id, book: book@ },
        }
    }
}

/// What is to be done next.
#[derive(Debug)]
pub enum Next {
    /// The command is done: wait for another.
    Wait,
    /// See that the device is online; then `Worker::online`.
    GoOnline(Errand),
    /// Make the request; then `Worker::listed`.
    List(Listing, Get),
    /// Make the request for the cover of the book at this place; then `Worker::cover`.
    Cover { ids: Vec<i64>, at: usize, get: Get },
    /// Do the step; then `Worker::downloaded`.
    Download { id: i32, plan: Download, step: DownloadStep },
}

/// What is to be done next.
#[verifier::ext_equal]
pub enum NextView {
    Wait,
    GoOnline(ErrandView),
    List(ListingView, GetView),
    Cover { ids: Seq<i64>, at: nat, get: GetView },
    Download { id: i32, plan: DownloadView, step: DownloadStepView },
}

impl View for Next {
    type V = NextView;

    open spec fn view(&self) -> NextView {
        match *self {
            Next::Wait => NextView::Wait,
            Next::GoOnline(errand) => NextView::GoOnline(errand@),
            Next::List(listing, get) => NextView::List(listing@, get@),
            Next::Cover { ids, at, get } => NextView::Cover {
                ids: ids@,
                at: at as nat,
                get: get@,
            },
            Next::Download { id, plan, step } => NextView::Download {
                id,
                plan: plan@,
                step: step@,
            },
        }
    }
}

/// One turn of the worker: what to report, in order, and what to do next.
#[derive(Debug)]
pub struct Turn {
    pub msgs: Vec<Msg>,
    pub next: Next,
}

/// One turn of the worker.
#[verifier::ext_equal]
pub struct TurnView {
    pub msgs: Seq<MsgView>,
    pub next: NextView,
}

impl View for Turn {
    type V = TurnView;

    open spec fn view(&self) -> TurnView {
        TurnView { msgs: msg_views(self.msgs@), next: self.next@ }
    }
}

/// The worker: its settings, its client, and the books of the last list.
#[derive(Debug)]
pub struct Worker {
    pub cfg: Config,
    pub client: Client,
    pub known: Vec<Book>,
}

/// What the worker knows.
#[verifier::ext_equal]
pub struct WorkerView {
    pub cfg: ConfigView,
    pub client: ClientView,
    pub known: Seq<BookView>,
}

impl View for Worker {
    type V = WorkerView;

    open spec fn view(&self) -> WorkerView {
        WorkerView { cfg: self.cfg@, client: self.client@, known: book_views(self.known@) }
    }
}

/// The number by which the list on screen knows a book: the low half of its id.
pub open spec fn row_id(id: i64) -> i32 {
    id as i32
}

/// The first book that the list on screen knows by the given number.
pub open spec fn find_row(books: Seq<BookView>, id: i32) -> Option<BookView>
    decreases books.len(),
{
    if books.len() == 0 {
        None
    } else if row_id(books[0].id) == id {
        Some(books[0])
    } else {
        find_row(books.drop_first(), id)
    }
}

/// Ids of ordinary size are their own numbers.
pub proof fn ordinary_ids_are_row_ids(id: i64)
    requires
        i32::MIN <= id <= i32::MAX,
    ensures
        row_id(id) == id,
{
}

/// The first book that the list on screen knows by the given number.
fn find_book(books: &Vec<Book>, id: i32) -> (r: Option<Book>)
    ensures
        match find_row(book_views(books@), id) {
            Some(book) => r is Some && r->0@ == book,
            None => r is None,
        },
{
    let ghost all = book_views(books@);
    assert(all.skip(0) =~= all);
    for i in 0..books.len()
        invariant
            all == book_views(books@),
            find_row(all, id) == find_row(all.skip(i as int), id),
    {
        if #[verifier::truncate]
        (books[i].id as i32) == id {
            return Some(books[i].clone());
        }
        assert(all.skip(i as int).drop_first() =~= all.skip(i + 1));
    }
    None
}

/// The worker as it starts with the given settings.
pub open spec fn worker_for(cfg: ConfigView) -> WorkerView {
    WorkerView { cfg, client: client_for(cfg), known: Seq::empty() }
}

/// The request for the next cover from place `at` on, if one can be made: it takes a library.
pub open spec fn cover_from(client: ClientView, ids: Seq<i64>, at: nat) -> NextView {
    match client.library {
        Some(library) => if at < ids.len() {
            NextView::Cover {
                ids,
                at,
                get: GetView {
                    url: thumbnail_url(
                        client.base,
                        library,
                        ids[at as int],
                        COVER_WIDTH,
                        COVER_HEIGHT,
                    ),
                    auth: client.auth,
                },
            }
        } else {
            NextView::Wait
        },
        None => NextView::Wait,
    }
}

/// A command.
pub open spec fn after_command(w: WorkerView, cmd: CmdView) -> (WorkerView, TurnView) {
    match cmd {
        CmdView::Reconfigure(cfg) => (
            worker_for(cfg),
            TurnView {
                msgs: seq![MsgView::Busy(true), MsgView::Books(Seq::empty()), MsgView::Busy(false)],
                next: NextView::Wait,
            },
        ),
        CmdView::Covers(ids) => (
            w,
            TurnView { msgs: Seq::empty(), next: cover_from(w.client, ids, 0) },
        ),
        CmdView::Refresh => (
            w,
            TurnView {
                msgs: seq![MsgView::Busy(true), MsgView::Status(StatusView::CheckingNetwork)],
                next: NextView::GoOnline(ErrandView::Refresh),
            },
        ),
        CmdView::Download(id) => (
            w,
            match find_row(w.known, id) {
                None => TurnView {
                    msgs: seq![
                        MsgView::Busy(true),
                        MsgView::Status(StatusView::BookNotFound),
                        MsgView::Busy(false),
                    ],
                    next: NextView::Wait,
                },
                Some(book) => if book.format is None {
                    TurnView {
                        msgs: seq![
                            MsgView::Busy(true),
                            MsgView::BookState(id, BookState::NoFormat),
                            MsgView::Status(StatusView::NoFormat { title: book.title }),
                            MsgView::Busy(false),
                        ],
                        next: NextView::Wait,
                    }
                } else {
                    TurnView {
                        msgs: seq![
                            MsgView::Busy(true),
                            MsgView::BookState(id, BookState::InProgress),
                            MsgView::Status(StatusView::Downloading { title: book.title }),
                        ],
                        next: NextView::GoOnline(ErrandView::Download { id, book }),
                    }
                },
            },
        ),
    }
}

/// The end of a download that failed.
pub open spec fn download_failed(id: i32, status: StatusView) -> TurnView {
    TurnView {
        msgs: seq![
            MsgView::BookState(id, BookState::Failed),
            MsgView::Status(status),
            MsgView::Busy(false),
        ],
        next: NextView::Wait,
    }
}

/// The network is up, or could not be brought up.
pub open spec fn after_online(
    w: WorkerView,
    errand: ErrandView,
    result: Result<(), ConnectError>,
) -> TurnView {
    match (errand, result) {
        (ErrandView::Refresh, Ok(_)) => TurnView {
            msgs: seq![MsgView::Status(StatusView::LoadingList)],
            next: NextView::List(
                ListingView::Search,
                GetView { url: search_url(w.client), auth: w.client.auth },
            ),
        },
        (ErrandView::Refresh, Err(e)) => TurnView {
            msgs: seq![MsgView::Status(StatusView::NetworkFailed(e.0)), MsgView::Busy(false)],
            next: NextView::Wait,
        },
        (ErrandView::Download { id, book }, Ok(_)) => match planned(
            w.client,
            book,
            w.cfg.download_dir,
            lowercase_of(
                match book.format {
                    Some(format) => format,
                    None => Seq::empty(),
                },
            ),
        ) {
            Ok(plan) => TurnView {
                msgs: Seq::empty(),
                next: NextView::Download { id, plan, step: DownloadStepView::MakeDir },
            },
            Err(e) => download_failed(id, StatusView::DownloadFailed(error_text(e))),
        },
        (ErrandView::Download { id, .. }, Err(e)) => download_failed(
            id,
            StatusView::NetworkFailed(e.0),
        ),
    }
}

/// A step of fetching the list.
pub open spec fn after_list_step(w: WorkerView, step: ListStepView) -> (WorkerView, TurnView) {
    match step {
        ListStepView::Fetch(listing, get) => (
            w,
            TurnView { msgs: Seq::empty(), next: NextView::List(listing, get) },
        ),
        ListStepView::Done(books) => (
            WorkerView { known: books, ..w },
            TurnView {
                msgs: seq![
                    MsgView::Status(StatusView::BookCount(books.len() as usize)),
                    MsgView::Books(books),
                    MsgView::Busy(false),
                ],
                next: NextView::Wait,
            },
        ),
        ListStepView::Failed(e) => (
            w,
            TurnView {
                msgs: seq![
                    MsgView::Status(StatusView::ListFailed(error_text(e))),
                    MsgView::Busy(false),
                ],
                next: NextView::Wait,
            },
        ),
    }
}

/// A reply on the list.
pub open spec fn after_listed(
    w: WorkerView,
    listing: ListingView,
    reply: Result<Seq<u8>, Seq<char>>,
) -> (WorkerView, TurnView) {
    let (client, step) = list_after_reply(w.client, listing, reply);
    after_list_step(WorkerView { client, ..w }, step)
}

/// A step of a download.
pub open spec fn after_downloaded(
    id: i32,
    plan: DownloadView,
    step: DownloadStepView,
    outcome: Result<bool, Seq<char>>,
) -> TurnView {
    match download_after(step, outcome) {
        DownloadStepView::Done => TurnView {
            msgs: seq![
                MsgView::BookState(id, BookState::Done),
                MsgView::Status(StatusView::Saved { name: file_name_of(plan.target) }),
                MsgView::Busy(false),
            ],
            next: NextView::Wait,
        },
        DownloadStepView::Failed(e) => download_failed(id, StatusView::DownloadFailed(e)),
        step => TurnView { msgs: Seq::empty(), next: NextView::Download { id, plan, step } },
    }
}

/// The size and the bytes of a decoded cover.
pub type CoverBytes = (u32, u32, Seq<u8>);

/// A cover that was asked for: it is reported if it could be had, and the next one is asked for.
pub open spec fn after_cover(
    client: ClientView,
    ids: Seq<i64>,
    at: nat,
    decoded: Option<CoverBytes>,
) -> TurnView {
    TurnView {
        msgs: match decoded {
            Some((width, height, pixels)) => seq![
                MsgView::Cover { id: ids[at as int], width, height, pixels },
            ],
            None => Seq::empty(),
        },
        next: cover_from(client, ids, at + 1),
    }
}

/// The cover that the messages of a turn begin with.
pub open spec fn reported_cover(msgs: Seq<MsgView>) -> Option<CoverBytes> {
    if msgs.len() == 0 {
        None
    } else {
        match msgs[0] {
            MsgView::Cover { width, height, pixels, .. } => Some((width, height, pixels)),
            _ => None,
        }
    }
}

/// What is reported of a cover once its picture is decoded: nothing where that failed. A book
/// without a cover is routine.
pub fn cover_report(id: i64, decoded: Result<CachedCover, String>) -> (r: Vec<Msg>)
    ensures
        r@ == match decoded {
            Ok(cover) => seq![Msg::Cover { id, cover }],
            Err(_) => Seq::empty(),
        },
{
    let mut msgs: Vec<Msg> = Vec::new();
    if let Ok(cover) = decoded {
        msgs.push(Msg::Cover { id, cover });
    }
    msgs
}

fn failed_download(id: i32, status: Status) -> (r: Turn)
    ensures
        r@ == download_failed(id, status@),
{
    let mut msgs: Vec<Msg> = Vec::new();
    msgs.push(Msg::BookState(id, BookState::Failed));
    msgs.push(Msg::Status(status));
    msgs.push(Msg::Busy(false));
    assert(msg_views(msgs@) =~= download_failed(id, status@).msgs);
    Turn { msgs, next: Next::Wait }
}

impl Worker {
    /// The worker as it starts with the given settings.
    pub fn new(cfg: Config) -> (r: Self)
        ensures
            r@ == worker_for(cfg@),
    {
        let client = Client::new(&cfg);
        let known: Vec<Book> = Vec::new();
        assert(book_views(known@) =~= Seq::empty());
        Worker { cfg, client, known }
    }

    fn next_cover(&self, ids: Vec<i64>, at: usize) -> (r: Next)
        ensures
            r@ == cover_from(self@.client, ids@, at as nat),
    {
        if at < ids.len() {
            match self.client.thumbnail(ids[at], COVER_WIDTH, COVER_HEIGHT) {
                Ok(get) => Next::Cover { ids, at, get },
                Err(_) => Next::Wait,
            }
        } else {
            Next::Wait
        }
    }

    /// Begins a command.
    pub fn command(&mut self, cmd: Cmd) -> (r: Turn)
        ensures
            (final(self)@, r@) == after_command(old(self)@, cmd@),
    {
        let mut msgs: Vec<Msg> = Vec::new();
        let ghost due = after_command(old(self)@, cmd@).1.msgs;
        match cmd {
            Cmd::Reconfigure(cfg) => {
                // The client keeps address, credentials and library, so that with new settings it
                // is made anew.
                let none: Vec<Book> = Vec::new();
                assert(book_views(none@) =~= Seq::empty());
                *self = Worker::new(cfg);
                msgs.push(Msg::Busy(true));
                msgs.push(Msg::Books(none));
                msgs.push(Msg::Busy(false));
                assert(msg_views(msgs@) =~= due);
                Turn { msgs, next: Next::Wait }
            },
            Cmd::Covers(ids) => {
                // Covers come in the background and leave the status line alone.
                assert(msg_views(msgs@) =~= due);
                Turn { msgs, next: self.next_cover(ids, 0) }
            },
            Cmd::Refresh => {
                msgs.push(Msg::Busy(true));
                msgs.push(Msg::Status(Status::CheckingNetwork));
                assert(msg_views(msgs@) =~= due);
                Turn { msgs, next: Next::GoOnline(Errand::Refresh) }
            },
            Cmd::Download(id) => {
                msgs.push(Msg::Busy(true));
                match find_book(&self.known, id) {
                    None => {
                        msgs.push(Msg::Status(Status::BookNotFound));
                        msgs.push(Msg::Busy(false));
                        assert(msg_views(msgs@) =~= due);
                        Turn { msgs, next: Next::Wait }
                    },
                    Some(book) => if book.format.is_none() {
                        msgs.push(Msg::BookState(id, BookState::NoFormat));
                        msgs.push(Msg::Status(Status::NoFormat { title: book.title }));
                        msgs.push(Msg::Busy(false));
                        assert(msg_views(msgs@) =~= due);
                        Turn { msgs, next: Next::Wait }
                    } else {
                        msgs.push(Msg::BookState(id, BookState::InProgress));
                        msgs.push(Msg::Status(Status::Downloading { title: book.title.clone() }));
                        assert(msg_views(msgs@) =~= due);
                        Turn { msgs, next: Next::GoOnline(Errand::Download { id, book }) }
                    },
                }
            },
        }
    }

    /// The network is up, or could not be brought up.
    pub fn online(&self, errand: Errand, result: Result<(), ConnectError>) -> (r: Turn)
        ensures
            r@ == after_online(self@, errand@, result),
    {
        let mut msgs: Vec<Msg> = Vec::new();
        let ghost due = after_online(self@, errand@, result).msgs;
        match errand {
            Errand::Refresh => match result {
                Ok(_) => {
                    msgs.push(Msg::Status(Status::LoadingList));
                    assert(msg_views(msgs@) =~= due);
                    let next = match self.client.list() {
                        ListStep::Fetch(listing, get) => Next::List(listing, get),
                        _ => Next::Wait,
                    };
                    Turn { msgs, next }
                },
                Err(e) => {
                    msgs.push(Msg::Status(Status::NetworkFailed(e.0)));
                    msgs.push(Msg::Busy(false));
                    assert(msg_views(msgs@) =~= due);
                    Turn { msgs, next: Next::Wait }
                },
            },
            Errand::Download { id, book } => match result {
                Ok(_) => match self.client.download(&book, self.cfg.download_dir.as_str()) {
                    Ok(plan) => {
                        assert(msg_views(msgs@) =~= due);
                        Turn { msgs, next: Next::Download { id, plan, step: DownloadStep::MakeDir } }
                    },
                    Err(e) => failed_download(id, Status::DownloadFailed(e.message())),
                },
                Err(e) => failed_download(id, Status::NetworkFailed(e.0)),
            },
        }
    }

    /// A reply on the list has come in, or the request has failed.
    pub fn listed(&mut self, listing: Listing, reply: Result<Vec<u8>, String>) -> (r: Turn)
        ensures
            (final(self)@, r@) == after_listed(
                old(self)@,
                listing@,
                match reply {
                    Ok(bytes) => Ok(bytes@),
                    Err(e) => Err(e@),
                },
            ),
            r.next matches Next::List(more, _) ==> listing_wf(more@),
    {
        let step = self.client.list_reply(listing, reply);
        self.list_step(step)
    }

    /// Reports a step of fetching the list.
    pub fn list_step(&mut self, step: ListStep) -> (r: Turn)
        ensures
            (final(self)@, r@) == after_list_step(old(self)@, step@),
    {
        let mut msgs: Vec<Msg> = Vec::new();
        let ghost due = after_list_step(old(self)@, step@).1.msgs;
        match step {
            ListStep::Fetch(listing, get) => {
                assert(msg_views(msgs@) =~= due);
                Turn { msgs, next: Next::List(listing, get) }
            },
            ListStep::Done(books) => {
                self.known = copy_books(&books);
                msgs.push(Msg::Status(Status::BookCount(books.len())));
                msgs.push(Msg::Books(books));
                msgs.push(Msg::Busy(false));
                assert(msg_views(msgs@) =~= due);
                Turn { msgs, next: Next::Wait }
            },
            ListStep::Failed(e) => {
                msgs.push(Msg::Status(Status::ListFailed(e.message())));
                msgs.push(Msg::Busy(false));
                assert(msg_views(msgs@) =~= due);
                Turn { msgs, next: Next::Wait }
            },
        }
    }

    /// A step of a download is done, with the given outcome.
    pub fn downloaded(
        &self,
        id: i32,
        plan: Download,
        step: DownloadStep,
        outcome: Result<bool, String>,
    ) -> (r: Turn)
        ensures
            r@ == after_downloaded(
                id,
                plan@,
                step@,
                match outcome {
                    Ok(there) => Ok(there),
                    Err(e) => Err(e@),
                },
            ),
    {
        let mut msgs: Vec<Msg> = Vec::new();
        match step.next(outcome) {
            DownloadStep::Done => {
                msgs.push(Msg::BookState(id, BookState::Done));
                msgs.push(Msg::Status(Status::Saved { name: file_name(plan.target.as_str()) }));
                msgs.push(Msg::Busy(false));
                assert(msg_views(msgs@) =~= seq![
                    MsgView::BookState(id, BookState::Done),
                    MsgView::Status(StatusView::Saved { name: file_name_of(plan@.target) }),
                    MsgView::Busy(false),
                ]);
                Turn { msgs, next: Next::Wait }
            },
            DownloadStep::Failed(e) => failed_download(id, Status::DownloadFailed(e)),
            step => {
                assert(msg_views(msgs@) =~= Seq::empty());
                Turn { msgs, next: Next::Download { id, plan, step } }
            },
        }
    }

    /// The thumbnail of a cover has come in, or the request has failed: it is reported if it can
    /// be decoded, and the next one is asked for either way.
    pub fn cover(&self, ids: Vec<i64>, at: usize, reply: Result<Vec<u8>, String>) -> (r: Turn)
        requires
            at < ids@.len(),
        ensures
            r@ == after_cover(self@.client, ids@, at as nat, reported_cover(r@.msgs)),
            if reply is Ok && fit_to_decode(reply->Ok_0@) && jpeg_picture(
                reply->Ok_0@,
            ) is Some {
                &&& r.msgs@.len() == 1
                &&& r.msgs@[0] matches Msg::Cover { id, cover }
                &&& id == ids@[at as int]
                &&& cover.packs_jpeg(reply->Ok_0@)
            } else {
                r.msgs@.len() == 0
            },
    {
        let msgs = match reply {
            Ok(jpeg) => cover_report(ids[at], CachedCover::pack(jpeg.as_slice())),
            Err(_) => Vec::new(),
        };
        assert(ids.len() > at);
        assert(msg_views(msgs@) =~= after_cover(
            self@.client,
            ids@,
            at as nat,
            reported_cover(msg_views(msgs@)),
        ).msgs);
        Turn { msgs, next: self.next_cover(ids, at + 1) }
    }
}

/// The turn marks the end of its command exactly where it ends it, and marks it last.
pub open spec fn marks_the_end(turn: TurnView) -> bool {
    &&& turn.next is Wait <==> turn.msgs.len() > 0 && turn.msgs.last() == MsgView::Busy(false)
    &&& forall|i: int|
        0 <= i < turn.msgs.len() - 1 ==> !(#[trigger] turn.msgs[i] is Busy)
    &&& turn.next !is Wait ==> forall|i: int|
        0 <= i < turn.msgs.len() ==> !(#[trigger] turn.msgs[i] is Busy)
}

/// Every command but the one for covers starts by saying that the worker is busy, and says that it
/// no longer is as the very last thing, once, when there is nothing left to do. The command for
/// covers says nothing of the kind.
pub proof fn commands_are_bracketed(
    w: WorkerView,
    cmd: CmdView,
    errand: ErrandView,
    online: Result<(), ConnectError>,
    listing: ListingView,
    reply: Result<Seq<u8>, Seq<char>>,
    id: i32,
    plan: DownloadView,
    step: DownloadStepView,
    outcome: Result<bool, Seq<char>>,
)
    ensures
        cmd !is Covers ==> {
            let turn = after_command(w, cmd).1;
            &&& turn.msgs.len() > 0
            &&& turn.msgs[0] == MsgView::Busy(true)
            &&& marks_the_end(TurnView { msgs: turn.msgs.drop_first(), next: turn.next })
        },
        cmd is Covers ==> after_command(w, cmd).1.msgs.len() == 0,
        marks_the_end(after_online(w, errand, online)),
        marks_the_end(after_listed(w, listing, reply).1),
        marks_the_end(after_downloaded(id, plan, step, outcome)),
{
}

/// The worker knows the books that it last reported: it looks a book up in what is on screen.
pub proof fn known_books_are_the_reported_ones(
    w: WorkerView,
    cmd: CmdView,
    listing: ListingView,
    reply: Result<Seq<u8>, Seq<char>>,
)
    ensures
        ({
            let (after, turn) = after_command(w, cmd);
            reports(w.known, turn.msgs, after.known)
        }),
        ({
            let (after, turn) = after_listed(w, listing, reply);
            reports(w.known, turn.msgs, after.known)
        }),
{
    let (after, turn) = after_command(w, cmd);
    if cmd is Reconfigure {
        assert(turn.msgs[1] == MsgView::Books(after.known));
    }
    let (after, turn) = after_listed(w, listing, reply);
    if turn.next is Wait && turn.msgs.len() == 3 {
        assert(turn.msgs[1] == MsgView::Books(after.known));
    }
}

/// Either a list is reported, and it is the one known from then on, or what is known stays.
pub open spec fn reports(known: Seq<BookView>, msgs: Seq<MsgView>, after: Seq<BookView>) -> bool {
    ||| msgs.contains(MsgView::Books(after))
    ||| after == known && forall|i: int| 0 <= i < msgs.len() ==> !(#[trigger] msgs[i] is Books)
}

/// A download that is under way ends by marking its book, and no other, as done or failed; until
/// then nothing is reported.
pub proof fn a_download_marks_its_book(
    w: WorkerView,
    id: i32,
    book: BookView,
    online: Result<(), ConnectError>,
    plan: DownloadView,
    step: DownloadStepView,
    outcome: Result<bool, Seq<char>>,
)
    ensures
        marks_the_book(id, after_online(w, ErrandView::Download { id, book }, online)),
        marks_the_book(id, after_downloaded(id, plan, step, outcome)),
{
}

/// What a turn of a download says of its book.
pub open spec fn marks_the_book(id: i32, turn: TurnView) -> bool {
    if turn.next is Wait {
        &&& turn.msgs.len() == 3
        &&& turn.msgs[0] == MsgView::BookState(id, BookState::Done)
            || turn.msgs[0] == MsgView::BookState(id, BookState::Failed)
        &&& turn.msgs[1] is Status
        &&& turn.msgs[0] == MsgView::BookState(id, BookState::Done) <==> turn.msgs[1]->Status_0 is Saved
    } else {
        turn.msgs.len() == 0 && turn.next is Download && turn.next->Download_id == id
    }
}

} // verus!
