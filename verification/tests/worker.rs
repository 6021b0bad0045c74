use pocket_calibre::calibre::Book;
use pocket_calibre::config::Config;
use pocket_calibre::cover::CachedCover;
use pocket_calibre::download::DownloadStep;
use pocket_calibre::i18n::{BookState, Status};
use pocket_calibre::listing::Listing;
use pocket_calibre::net::ConnectError;
use pocket_calibre::worker::{cover_report, Cmd, Errand, Msg, Next, Worker};

fn settings() -> Config {
    let mut cfg = Config::default();
    cfg.server = "http://host".to_string();
    cfg.library = Some("L".to_string());
    cfg
}

fn with_books() -> Worker {
    let mut worker = Worker::new(settings());
    worker.known = vec![
        Book { id: 1, title: "One".into(), author: "A".into(), format: Some("EPUB".into()) },
        Book { id: 2, title: "Two".into(), author: "B".into(), format: None },
        Book { id: (1 << 32) + 9, title: "Far".into(), author: "C".into(), format: Some("PDF".into()) },
    ];
    worker
}

fn reply(text: &str) -> Result<Vec<u8>, String> {
    Ok(text.as_bytes().to_vec())
}

#[test]
fn a_refresh_ends_with_the_list() {
    let mut worker = Worker::new(settings());
    let turn = worker.command(Cmd::Refresh);
    assert!(matches!(turn.msgs[0], Msg::Busy(true)));
    assert!(matches!(turn.msgs[1], Msg::Status(Status::CheckingNetwork)));
    assert_eq!(turn.msgs.len(), 2);
    let errand = match turn.next {
        Next::GoOnline(errand) => errand,
        other => panic!("{other:?}"),
    };
    let turn = worker.online(errand, Ok(()));
    assert!(matches!(turn.msgs[..], [Msg::Status(Status::LoadingList)]));
    let (listing, get) = match turn.next {
        Next::List(listing, get) => (listing, get),
        other => panic!("{other:?}"),
    };
    assert!(get.url.starts_with("http://host/ajax/search/L?num=200"));
    let turn = worker.listed(listing, reply(r#"{"book_ids": [8]}"#));
    assert!(turn.msgs.is_empty());
    let (listing, get) = match turn.next {
        Next::List(listing, get) => (listing, get),
        other => panic!("{other:?}"),
    };
    assert_eq!(get.url, "http://host/ajax/books/L?ids=8");
    let turn = worker.listed(listing, reply(r#"{"8": {"title": "Eight"}}"#));
    assert!(matches!(turn.next, Next::Wait));
    assert!(matches!(turn.msgs[0], Msg::Status(Status::BookCount(1))));
    assert!(matches!(&turn.msgs[1], Msg::Books(books) if books[0].title == "Eight"));
    assert!(matches!(turn.msgs[2], Msg::Busy(false)));
    assert_eq!(worker.known.len(), 1);
    assert_eq!(worker.known[0].id, 8);
}

#[test]
fn a_refresh_can_fail() {
    let mut worker = with_books();
    let turn = worker.online(Errand::Refresh, Err(ConnectError(5)));
    assert!(matches!(
        turn.msgs[..],
        [Msg::Status(Status::NetworkFailed(5)), Msg::Busy(false)]
    ));
    let turn = worker.online(Errand::Refresh, Ok(()));
    let listing = match turn.next {
        Next::List(listing, _) => listing,
        other => panic!("{other:?}"),
    };
    let turn = worker.listed(listing, Err("timed out".to_string()));
    assert!(matches!(&turn.msgs[0], Msg::Status(Status::ListFailed(e)) if e == "timed out"));
    assert!(matches!(turn.msgs[1], Msg::Busy(false)));
    assert!(matches!(turn.next, Next::Wait));
    // What was listed before stays.
    assert_eq!(worker.known.len(), 3);
}

#[test]
fn new_settings_forget_the_list() {
    let mut worker = with_books();
    let mut cfg = settings();
    cfg.server = "http://other/".to_string();
    let turn = worker.command(Cmd::Reconfigure(cfg));
    assert!(matches!(turn.msgs[0], Msg::Busy(true)));
    assert!(matches!(&turn.msgs[1], Msg::Books(books) if books.is_empty()));
    assert!(matches!(turn.msgs[2], Msg::Busy(false)));
    assert_eq!(turn.msgs.len(), 3);
    assert!(matches!(turn.next, Next::Wait));
    assert!(worker.known.is_empty());
    assert_eq!(worker.client.base, "http://other");
    assert_eq!(worker.cfg.server, "http://other/");
}

#[test]
fn unknown_books_and_books_without_a_format_are_not_downloaded() {
    let mut worker = with_books();
    let turn = worker.command(Cmd::Download(7));
    assert!(matches!(
        turn.msgs[..],
        [Msg::Busy(true), Msg::Status(Status::BookNotFound), Msg::Busy(false)]
    ));
    let turn = worker.command(Cmd::Download(2));
    assert!(matches!(turn.msgs[1], Msg::BookState(2, BookState::NoFormat)));
    assert!(matches!(&turn.msgs[2], Msg::Status(Status::NoFormat { title }) if title == "Two"));
    assert!(matches!(turn.msgs[3], Msg::Busy(false)));
    assert!(matches!(turn.next, Next::Wait));
}

#[test]
fn a_download_runs_to_its_end() {
    let mut worker = with_books();
    let turn = worker.command(Cmd::Download(1));
    assert!(matches!(turn.msgs[1], Msg::BookState(1, BookState::InProgress)));
    assert!(matches!(&turn.msgs[2], Msg::Status(Status::Downloading { title }) if title == "One"));
    let errand = match turn.next {
        Next::GoOnline(errand) => errand,
        other => panic!("{other:?}"),
    };
    let mut turn = worker.online(errand, Ok(()));
    let mut steps = 0;
    while let Next::Download { id, plan, step } = turn.next {
        assert!(turn.msgs.is_empty());
        assert_eq!(plan.target, "/mnt/ext1/Books/A - One.epub");
        let there = !matches!(step, DownloadStep::Check);
        turn = worker.downloaded(id, plan, step, Ok(there));
        steps += 1;
    }
    assert_eq!(steps, 4);
    assert!(matches!(turn.msgs[0], Msg::BookState(1, BookState::Done)));
    assert!(matches!(&turn.msgs[1], Msg::Status(Status::Saved { name }) if name == "A - One.epub"));
    assert!(matches!(turn.msgs[2], Msg::Busy(false)));
}

#[test]
fn a_download_can_fail() {
    let mut worker = with_books();
    // The list on screen knows a book by the low half of its id.
    let turn = worker.command(Cmd::Download(9));
    let errand = match turn.next {
        Next::GoOnline(errand) => errand,
        other => panic!("{other:?}"),
    };
    assert!(matches!(&errand, Errand::Download { id: 9, book } if book.title == "Far"));
    let turn = worker.online(errand, Err(ConnectError(-2)));
    assert!(matches!(
        turn.msgs[..],
        [
            Msg::BookState(9, BookState::Failed),
            Msg::Status(Status::NetworkFailed(-2)),
            Msg::Busy(false)
        ]
    ));

    worker.client.library = None;
    let book = worker.known[0].clone();
    let turn = worker.online(Errand::Download { id: 1, book }, Ok(()));
    assert!(matches!(
        &turn.msgs[1],
        Msg::Status(Status::DownloadFailed(e)) if e == "library id unknown, refresh the list"
    ));

    worker.client.library = Some("L".to_string());
    let book = worker.known[0].clone();
    let turn = worker.online(Errand::Download { id: 1, book }, Ok(()));
    let turn = match turn.next {
        Next::Download { id, plan, step } => {
            worker.downloaded(id, plan, step, Err("disk full".to_string()))
        }
        other => panic!("{other:?}"),
    };
    assert!(matches!(turn.msgs[0], Msg::BookState(1, BookState::Failed)));
    assert!(matches!(&turn.msgs[1], Msg::Status(Status::DownloadFailed(e)) if e == "disk full"));
}

#[test]
fn covers_come_quietly() {
    let picture = image::GrayImage::from_pixel(2, 2, image::Luma([0u8]));
    let mut jpeg = Vec::new();
    image::codecs::jpeg::JpegEncoder::new_with_quality(&mut jpeg, 100)
        .encode_image(&picture)
        .unwrap();

    let mut worker = with_books();
    let turn = worker.command(Cmd::Covers(vec![5, 6, 7]));
    assert!(turn.msgs.is_empty());
    let (ids, at) = match turn.next {
        Next::Cover { ids, at, get } => {
            assert_eq!(get.url, "http://host/get/thumb/5/L?sz=88x132");
            (ids, at)
        }
        other => panic!("{other:?}"),
    };
    let turn = worker.cover(ids, at, Err("404".to_string()));
    assert!(turn.msgs.is_empty());
    let (ids, at) = match turn.next {
        Next::Cover { ids, at, get } => {
            assert_eq!(get.url, "http://host/get/thumb/6/L?sz=88x132");
            (ids, at)
        }
        other => panic!("{other:?}"),
    };
    let turn = worker.cover(ids, at, Ok(jpeg));
    match &turn.msgs[..] {
        [Msg::Cover { id: 6, cover }] => {
            assert_eq!((cover.width, cover.height), (2, 2));
            assert_eq!(cover.pixels, [0, 0]);
        }
        other => panic!("{other:?}"),
    }
    let (ids, at) = match turn.next {
        Next::Cover { ids, at, .. } => (ids, at),
        other => panic!("{other:?}"),
    };
    let turn = worker.cover(ids, at, reply("no picture"));
    assert!(turn.msgs.is_empty());
    assert!(matches!(turn.next, Next::Wait));
}

#[test]
fn no_covers_without_a_library() {
    let mut worker = with_books();
    worker.client.library = None;
    let turn = worker.command(Cmd::Covers(vec![1, 2]));
    assert!(turn.msgs.is_empty());
    assert!(matches!(turn.next, Next::Wait));
}

#[test]
fn only_decoded_covers_are_reported() {
    let cover = CachedCover { width: 1, height: 1, pixels: vec![0xf0] };
    let msgs = cover_report(3, Ok(cover));
    assert!(matches!(&msgs[..], [Msg::Cover { id: 3, cover }] if cover.pixels == [0xf0]));
    assert!(cover_report(3, Err("bad".to_string())).is_empty());
}

#[test]
fn a_list_that_is_complete_is_reported() {
    let mut worker = with_books();
    let listing = Listing::Books { ids: vec![1], done: usize::MAX, books: Vec::new() };
    let turn = worker.listed(listing, reply("{}"));
    assert!(matches!(turn.msgs[0], Msg::Status(Status::BookCount(0))));
    assert!(matches!(turn.next, Next::Wait));
    assert!(worker.known.is_empty());
}
