use pocket_calibre::calibre::{Book, Client, Error};
use pocket_calibre::config::Config;
use pocket_calibre::download::DownloadStep;

fn client(library: Option<&str>) -> Client {
    let mut cfg = Config::default();
    cfg.server = "http://host".to_string();
    cfg.library = library.map(str::to_string);
    Client::new(&cfg)
}

fn book(title: &str, author: &str, format: Option<&str>) -> Book {
    Book {
        id: 12,
        title: title.to_string(),
        author: author.to_string(),
        format: format.map(str::to_string),
    }
}

#[test]
fn a_download_is_planned() {
    let plan = client(Some("my lib"))
        .download(&book("War: Peace", "Tolstoy", Some("EPUB")), "/mnt/ext1/Books")
        .unwrap();
    assert_eq!(plan.dir, "/mnt/ext1/Books");
    assert_eq!(plan.target, "/mnt/ext1/Books/Tolstoy - War_ Peace.epub");
    assert_eq!(plan.temp, "/mnt/ext1/Books/.Tolstoy - War_ Peace.part");
    assert_eq!(plan.get.url, "http://host/get/EPUB/12/my%20lib");
    assert_eq!(plan.get.auth, None);
}

#[test]
fn nameless_books_have_fixed_file_names() {
    let plan = client(Some("L")).download(&book("", "", Some("Fb2")), "b/").unwrap();
    assert_eq!(plan.target, "b/Unknown author - Untitled.fb2");
    assert_ne!(plan.target, plan.temp);
}

#[test]
fn the_extension_can_be_given() {
    let plan = client(Some("L")).plan(&book("t", "a", Some("EPUB")), "/d", "kepub").unwrap();
    assert_eq!(plan.target, "/d/a - t.kepub");
}

#[test]
fn a_download_takes_a_format_and_a_library() {
    assert!(matches!(client(Some("L")).download(&book("t", "a", None), "/d"), Err(Error::NoFormat)));
    assert!(matches!(client(None).download(&book("t", "a", None), "/d"), Err(Error::NoFormat)));
    assert!(matches!(
        client(None).download(&book("t", "a", Some("PDF")), "/d"),
        Err(Error::NoLibrary)
    ));
}

#[test]
fn a_download_goes_by_way_of_a_temporary_file() {
    let step = DownloadStep::MakeDir.next(Ok(true));
    assert!(matches!(step, DownloadStep::Check));
    let step = step.next(Ok(false));
    assert!(matches!(step, DownloadStep::Fetch));
    let step = step.next(Ok(true));
    assert!(matches!(step, DownloadStep::Rename));
    assert!(matches!(step.next(Ok(true)), DownloadStep::Done));
}

#[test]
fn a_book_that_is_there_is_kept() {
    assert!(matches!(DownloadStep::Check.next(Ok(true)), DownloadStep::Done));
    assert!(matches!(DownloadStep::Check.next(Err("?".to_string())), DownloadStep::Fetch));
}

#[test]
fn a_download_cut_short_is_cleaned_up() {
    let step = DownloadStep::Fetch.next(Err("cut".to_string()));
    assert!(matches!(&step, DownloadStep::Discard(e) if e == "cut"));
    let step = step.next(Err("no such file".to_string()));
    assert!(matches!(step, DownloadStep::Failed(e) if e == "cut"));
    let step = DownloadStep::MakeDir.next(Err("full".to_string()));
    assert!(matches!(step, DownloadStep::Failed(e) if e == "full"));
    let step = DownloadStep::Rename.next(Err("gone".to_string()));
    assert!(matches!(step, DownloadStep::Failed(e) if e == "gone"));
}
