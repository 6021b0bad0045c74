use pocket_calibre::calibre::{Book, Client, Error};
use pocket_calibre::config::Config;
use pocket_calibre::json::Json;
use pocket_calibre::listing::{choose_format, order_books, read_books, ListStep, Listing};

fn settings() -> Config {
    let mut cfg = Config::default();
    cfg.server = "http://host:8080//".to_string();
    cfg
}

fn reply(text: &str) -> Result<Vec<u8>, String> {
    Ok(text.as_bytes().to_vec())
}

fn book(id: i64, title: &str) -> Book {
    Book { id, title: title.to_string(), author: String::new(), format: None }
}

#[test]
fn a_client_is_made_from_settings() {
    let mut cfg = settings();
    let plain = Client::new(&cfg);
    assert_eq!(plain.base, "http://host:8080");
    assert_eq!(plain.auth, None);
    assert_eq!(plain.limit, 200);
    cfg.user = Some("user".to_string());
    assert_eq!(Client::new(&cfg).auth.unwrap(), "Basic dXNlcjo=");
    cfg.password = Some("pass".to_string());
    assert_eq!(Client::new(&cfg).auth.unwrap(), "Basic dXNlcjpwYXNz");
}

#[test]
fn requests_name_the_library_once_it_is_known() {
    let mut cfg = settings();
    cfg.user = Some("user".to_string());
    cfg.password = Some("pass".to_string());
    let mut client = Client::new(&cfg);
    let get = client.search();
    assert_eq!(
        get.url,
        "http://host:8080/ajax/search?num=200&sort=timestamp&sort_order=desc"
    );
    assert_eq!(get.auth.unwrap(), "Basic dXNlcjpwYXNz");
    assert_eq!(client.metadata(&[1, 22, -3]).url, "http://host:8080/ajax/books?ids=1,22,-3");
    assert!(matches!(client.thumbnail(7, 88, 132), Err(Error::NoLibrary)));

    client.library = Some("my lib".to_string());
    assert_eq!(
        client.search().url,
        "http://host:8080/ajax/search/my%20lib?num=200&sort=timestamp&sort_order=desc"
    );
    assert_eq!(client.metadata(&[5]).url, "http://host:8080/ajax/books/my%20lib?ids=5");
    assert_eq!(
        client.thumbnail(7, 88, 132).unwrap().url,
        "http://host:8080/get/thumb/7/my%20lib?sz=88x132"
    );
}

#[test]
fn errors_have_texts() {
    assert_eq!(Error::NoFormat.message(), "no suitable format for this book");
    assert_eq!(Error::NoLibrary.message(), "library id unknown, refresh the list");
    assert_eq!(Error::NoBookIds.message(), "no book_ids in the /ajax/search response");
    assert_eq!(Error::NotAnObject.message(), "the /ajax/books response is not an object");
    assert_eq!(Error::Json("eof".to_string()).message(), "json: eof");
    assert_eq!(Error::Io("timed out".to_string()).message(), "timed out");
}

#[test]
fn documents_are_read_as_serde_json_reads_them() {
    let doc = Json::parse(br#"{"a": [1, -2, 2.5, "x", null], "b": {"c": true}, "a2": 18446744073709551615}"#)
        .unwrap();
    match doc.get("a") {
        Some(Json::List(items)) => {
            assert_eq!(items.len(), 5);
            assert!(matches!(items[0], Json::Int(1)));
            assert!(matches!(items[1], Json::Int(-2)));
            assert!(matches!(items[2], Json::Other));
            assert!(matches!(&items[3], Json::Text(s) if s == "x"));
            assert!(matches!(items[4], Json::Null));
        }
        other => panic!("{other:?}"),
    }
    assert!(matches!(doc.get("b").and_then(|b| b.get("c")), Some(Json::Other)));
    assert!(matches!(doc.get("a2"), Some(Json::Other)));
    assert!(doc.get("c").is_none());
    assert!(doc.get("a").unwrap().get("x").is_none());
    let bad = Json::parse(b"{\"a\": ");
    let expected = serde_json::from_slice::<serde_json::Value>(b"{\"a\": ").unwrap_err().to_string();
    assert_eq!(bad.unwrap_err(), expected);
}

#[test]
fn a_list_is_fetched_in_two_stages() {
    let mut client = Client::new(&settings());
    let (listing, get) = match client.list() {
        ListStep::Fetch(listing, get) => (listing, get),
        other => panic!("{other:?}"),
    };
    assert!(get.url.starts_with("http://host:8080/ajax/search?num=200"));
    let step = client.list_reply(
        listing,
        reply(r#"{"library_id": "Calibre_Library", "book_ids": [3, 1, "x", 2.5, 2]}"#),
    );
    let (listing, get) = match step {
        ListStep::Fetch(listing, get) => (listing, get),
        other => panic!("{other:?}"),
    };
    assert_eq!(get.url, "http://host:8080/ajax/books/Calibre_Library?ids=3,1,2");
    assert_eq!(client.library.as_deref(), Some("Calibre_Library"));
    let step = client.list_reply(
        listing,
        reply(
            r#"{
                "1": {"title": "One", "authors": ["A", 5, "B"], "formats": ["pdf", "epub"]},
                "2": null,
                "3": {"formats": ["djvu"]},
                "x": {"title": "No id"},
                "9": {"title": "Not asked for"}
            }"#,
        ),
    );
    let books = match step {
        ListStep::Done(books) => books,
        other => panic!("{other:?}"),
    };
    assert_eq!(books.iter().map(|b| b.id).collect::<Vec<_>>(), [3, 1]);
    assert_eq!(books[0].title, "");
    assert_eq!(books[0].author, "");
    assert_eq!(books[0].format, None);
    assert_eq!(books[1].title, "One");
    assert_eq!(books[1].author, "A, B");
    assert_eq!(books[1].format.as_deref(), Some("EPUB"));
}

#[test]
fn long_lists_are_fetched_in_batches() {
    let mut client = Client::new(&settings());
    let ids: Vec<String> = (1..=101).map(|n| n.to_string()).collect();
    let mut step = client.list_reply(
        Listing::Search,
        reply(&format!("{{\"book_ids\": [{}]}}", ids.join(","))),
    );
    let mut sizes = Vec::new();
    let books = loop {
        match step {
            ListStep::Fetch(listing, get) => {
                let asked: Vec<&str> = get.url.split("?ids=").nth(1).unwrap().split(',').collect();
                sizes.push(asked.len());
                let entries: Vec<String> =
                    asked.iter().rev().map(|id| format!("\"{id}\": {{\"title\": \"t{id}\"}}")).collect();
                step = client.list_reply(listing, reply(&format!("{{{}}}", entries.join(","))));
            }
            ListStep::Done(books) => break books,
            ListStep::Failed(e) => panic!("{}", e.message()),
        }
    };
    assert_eq!(sizes, [50, 50, 1]);
    assert_eq!(books.len(), 101);
    for (i, b) in books.iter().enumerate() {
        assert_eq!(b.id, i as i64 + 1);
        assert_eq!(b.title, format!("t{}", b.id));
    }
}

#[test]
fn no_ids_make_an_empty_list() {
    let mut client = Client::new(&settings());
    let step = client.list_reply(Listing::Search, reply(r#"{"book_ids": []}"#));
    assert!(matches!(step, ListStep::Done(books) if books.is_empty()));
}

#[test]
fn lists_fail_for_a_reason() {
    let mut client = Client::new(&settings());
    let step = client.list_reply(Listing::Search, Err("no route".to_string()));
    assert!(matches!(step, ListStep::Failed(Error::Io(e)) if e == "no route"));
    let step = client.list_reply(Listing::Search, reply("{}"));
    assert!(matches!(step, ListStep::Failed(Error::NoBookIds)));
    let step = client.list_reply(Listing::Search, reply("oops"));
    assert!(matches!(step, ListStep::Failed(Error::Json(_))));
    let listing = Listing::Books { ids: vec![1], done: 0, books: Vec::new() };
    let step = client.list_reply(listing, reply("[]"));
    assert!(matches!(step, ListStep::Failed(Error::NotAnObject)));
}

#[test]
fn formats_are_chosen_by_preference() {
    let wanted = vec!["FB2".to_string(), "EPUB".to_string(), "PDF".to_string()];
    let have = vec!["PDF".to_string(), "EPUB".to_string()];
    assert_eq!(choose_format(&wanted, &have).as_deref(), Some("EPUB"));
    assert_eq!(choose_format(&wanted, &Vec::new()), None);
    assert_eq!(choose_format(&Vec::new(), &have), None);
}

#[test]
fn formats_are_compared_in_capitals() {
    let doc = Json::parse("{\"4\": {\"formats\": [\"straße\"]}}".as_bytes()).unwrap();
    let books = read_books(&doc, &vec!["STRASSE".to_string()]).unwrap();
    assert_eq!(books[0].format.as_deref(), Some("STRASSE"));
}

#[test]
fn books_come_in_the_order_of_the_search() {
    let books = vec![book(1, "a"), book(2, "b"), book(1, "c")];
    let ordered = order_books(&vec![2, 5, 1, 1], books);
    let seen: Vec<(i64, &str)> = ordered.iter().map(|b| (b.id, b.title.as_str())).collect();
    assert_eq!(seen, [(2, "b"), (1, "c")]);
}
