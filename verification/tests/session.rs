use pocket_calibre::calibre::Book;
use pocket_calibre::config::Config;
use pocket_calibre::download::DownloadStep;
use pocket_calibre::i18n::{BookState, Status};
use pocket_calibre::net::ConnectError;
use pocket_calibre::worker::{Cmd, Msg, Next, Worker};

/// How everything goes that a command asks for.
struct World {
    online: Result<(), i32>,
    replies: Vec<Result<&'static str, &'static str>>,
    failing_step: Option<&'static str>,
    covers: Vec<Option<Vec<u8>>>,
}

fn world() -> World {
    World { online: Ok(()), replies: Vec::new(), failing_step: None, covers: Vec::new() }
}

/// Runs a command to its end and gives everything that was said.
fn run(worker: &mut Worker, cmd: Cmd, world: &World) -> Vec<Msg> {
    let mut replies = world.replies.iter();
    let mut turn = worker.command(cmd);
    let mut said = Vec::new();
    loop {
        said.append(&mut turn.msgs);
        turn = match turn.next {
            Next::Wait => return said,
            Next::GoOnline(errand) => worker.online(errand, world.online.map_err(ConnectError)),
            Next::List(listing, _) => {
                let reply = replies.next().unwrap();
                worker.listed(
                    listing,
                    reply.map(|r| r.as_bytes().to_vec()).map_err(|e| e.to_string()),
                )
            }
            Next::Cover { ids, at, .. } => {
                let reply = world.covers[at].clone().ok_or("404".to_string());
                worker.cover(ids, at, reply)
            }
            Next::Download { id, plan, step } => {
                let name = format!("{step:?}");
                let outcome = match world.failing_step {
                    Some(failing) if failing == name => Err("disk full".to_string()),
                    _ => Ok(!matches!(step, DownloadStep::Check)),
                };
                worker.downloaded(id, plan, step, outcome)
            }
        };
    }
}

fn worker() -> Worker {
    let mut cfg = Config::default();
    cfg.library = Some("L".to_string());
    let mut worker = Worker::new(cfg);
    worker.known = vec![Book {
        id: 1,
        title: "One".into(),
        author: "A".into(),
        format: Some("EPUB".into()),
    }];
    worker
}

fn is_bracketed(said: &[Msg]) -> bool {
    let inner = &said[1..said.len() - 1];
    matches!(said[0], Msg::Busy(true))
        && matches!(said[said.len() - 1], Msg::Busy(false))
        && !inner.iter().any(|m| matches!(m, Msg::Busy(_)))
}

#[test]
fn every_refresh_is_bracketed() {
    let mut w = worker();
    let offline = World { online: Err(4), ..world() };
    let said = run(&mut w, Cmd::Refresh, &offline);
    assert!(is_bracketed(&said));
    assert_eq!(said.len(), 4);
    assert_eq!(w.known[0].title, "One");

    let silent = World { replies: vec![Ok(r#"{"book_ids": [8]}"#), Err("timed out")], ..world() };
    let said = run(&mut w, Cmd::Refresh, &silent);
    assert!(is_bracketed(&said));
    assert!(matches!(&said[3], Msg::Status(Status::ListFailed(e)) if e == "timed out"));
    assert_eq!(w.known[0].title, "One");

    let empty = World { replies: vec![Ok(r#"{"book_ids": []}"#)], ..world() };
    let said = run(&mut w, Cmd::Refresh, &empty);
    assert!(is_bracketed(&said));
    assert!(matches!(&said[4], Msg::Books(books) if books.is_empty()));
    assert!(w.known.is_empty());
}

#[test]
fn every_download_settles_its_book() {
    for failing_step in [None, Some("MakeDir"), Some("Fetch"), Some("Rename")] {
        let mut w = worker();
        let said = run(&mut w, Cmd::Download(1), &World { failing_step, ..world() });
        assert!(is_bracketed(&said));
        assert_eq!(said.len(), 6);
        assert!(matches!(said[1], Msg::BookState(1, BookState::InProgress)));
        if failing_step.is_none() {
            assert!(matches!(said[3], Msg::BookState(1, BookState::Done)));
            assert!(matches!(said[4], Msg::Status(Status::Saved { .. })));
        } else {
            assert!(matches!(said[3], Msg::BookState(1, BookState::Failed)));
            assert!(matches!(&said[4], Msg::Status(Status::DownloadFailed(e)) if e == "disk full"));
        }
        assert_eq!(w.known.len(), 1);
    }
}

#[test]
fn covers_come_one_by_one_and_in_order() {
    let picture = image::GrayImage::from_pixel(2, 2, image::Luma([255u8]));
    let mut jpeg = Vec::new();
    image::codecs::jpeg::JpegEncoder::new_with_quality(&mut jpeg, 100)
        .encode_image(&picture)
        .unwrap();
    let some = World {
        covers: vec![Some(jpeg.clone()), None, Some(b"no picture".to_vec()), Some(jpeg)],
        ..world()
    };
    let said = run(&mut worker(), Cmd::Covers(vec![9, 5, 7, 9]), &some);
    assert!(matches!(said[..], [Msg::Cover { id: 9, .. }, Msg::Cover { id: 9, .. }]));
    let said = run(&mut worker(), Cmd::Covers(vec![]), &world());
    assert!(said.is_empty());
}

#[test]
fn commands_follow_one_another() {
    let mut w = worker();
    let first = run(&mut w, Cmd::Reconfigure(Config::default()), &world());
    assert!(is_bracketed(&first));
    // The list is gone with the old settings.
    let second = run(&mut w, Cmd::Download(1), &world());
    assert!(is_bracketed(&second));
    assert!(matches!(second[1], Msg::Status(Status::BookNotFound)));
}
