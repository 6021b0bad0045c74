//! The client of a calibre content server: who it talks to, and every request that it makes.
use vstd::prelude::*;
use vstd::utf8::encode_utf8;

use crate::config::{Config, ConfigView};
use crate::encoding::{base64, base64_text, percent_text, urlencode};
use crate::number::{decimal, push_decimal, push_signed, signed_decimal};
use crate::text::{copy_list, copy_opt, join, joined, opt_text, strip, strip_end, texts, Strip};

verus! {

/// A book of the list. A title or an author that the server does not tell stays empty.
#[derive(Debug)]
pub struct Book {
    pub id: i64,
    pub title: String,
    pub author: String,
    /// The format to download: the first of those wanted that the book has.
    pub format: Option<String>,
}

/// What is known of a book.
#[verifier::ext_equal]
pub struct BookView {
    pub id: i64,
    pub title: Seq<char>,
    pub author: Seq<char>,
    pub format: Option<Seq<char>>,
}

impl View for Book {
    type V = BookView;

    open spec fn view(&self) -> BookView {
        BookView {
            id: self.id,
            title: self.title@,
            author: self.author@,
            format: opt_text(self.format),
        }
    }
}

impl Clone for Book {
    fn clone(&self) -> (r: Self)
        ensures
            r == *self,
    {
        Book {
            id: self.id,
            title: self.title.clone(),
            author: self.author.clone(),
            format: copy_opt(&self.format),
        }
    }
}

/// What is known of the books of a list.
pub open spec fn book_views(books: Seq<Book>) -> Seq<BookView> {
    Seq::new(books.len(), |i: int| books[i]@)
}

/// A copy of a list of books.
pub fn copy_books(books: &Vec<Book>) -> (r: Vec<Book>)
    ensures
        r@ == books@,
{
    let mut out: Vec<Book> = Vec::new();
    for i in 0..books.len()
        invariant
            out@ == books@.take(i as int),
    {
        out.push(books[i].clone());
        assert(out@ =~= books@.take(i + 1));
    }
    assert(books@.take(books@.len() as int) =~= books@);
    out
}

/// Why a request could not be made or its reply could not be used.
#[derive(Debug)]
pub enum Error {
    /// The book has none of the wanted formats.
    NoFormat,
    /// The server has not told its library yet.
    NoLibrary,
    /// The reply to a search has no list of books.
    NoBookIds,
    /// The reply on books is no object.
    NotAnObject,
    /// The reply is no JSON.
    Json(String),
    /// The network or the disk failed.
    Io(String),
}

/// Why a request could not be made or its reply could not be used.
pub enum ErrorView {
    NoFormat,
    NoLibrary,
    NoBookIds,
    NotAnObject,
    Json(Seq<char>),
    Io(Seq<char>),
}

impl View for Error {
    type V = ErrorView;

    open spec fn view(&self) -> ErrorView {
        match *self {
            Error::NoFormat => ErrorView::NoFormat,
            Error::NoLibrary => ErrorView::NoLibrary,
            Error::NoBookIds => ErrorView::NoBookIds,
            Error::NotAnObject => ErrorView::NotAnObject,
            Error::Json(e) => ErrorView::Json(e@),
            Error::Io(e) => ErrorView::Io(e@),
        }
    }
}

/// The text of an error.
pub open spec fn error_text(e: ErrorView) -> Seq<char> {
    match e {
        ErrorView::NoFormat => "no suitable format for this book"@,
        ErrorView::NoLibrary => "library id unknown, refresh the list"@,
        ErrorView::NoBookIds => "no book_ids in the /ajax/search response"@,
        ErrorView::NotAnObject => "the /ajax/books response is not an object"@,
        ErrorView::Json(e) => "json: "@ + e,
        ErrorView::Io(e) => e,
    }
}

impl Error {
    /// The text of the error.
    pub fn message(&self) -> (r: String)
        ensures
            r@ == error_text(self@),
    {
        match self {
            Error::NoFormat => "no suitable format for this book".to_string(),
            Error::NoLibrary => "library id unknown, refresh the list".to_string(),
            Error::NoBookIds => "no book_ids in the /ajax/search response".to_string(),
            Error::NotAnObject => "the /ajax/books response is not an object".to_string(),
            Error::Json(e) => {
                let mut out: String = "json: ".to_string();
                out.append(e.as_str());
                out
            },
            Error::Io(e) => e.clone(),
        }
    }
}

/// A request to the server: what to get, and the value of the `Authorization` header, if any.
#[derive(Debug)]
pub struct Get {
    pub url: String,
    pub auth: Option<String>,
}

/// A request to the server.
#[verifier::ext_equal]
pub struct GetView {
    pub url: Seq<char>,
    pub auth: Option<Seq<char>>,
}

impl View for Get {
    type V = GetView;

    open spec fn view(&self) -> GetView {
        GetView { url: self.url@, auth: opt_text(self.auth) }
    }
}

/// The client of a server.
#[derive(Debug)]
pub struct Client {
    pub base: String,
    pub auth: Option<String>,
    pub formats: Vec<String>,
    pub limit: usize,
    /// Told by the server in its first reply to a search; links for downloads need it.
    pub library: Option<String>,
}

/// What a client knows.
#[verifier::ext_equal]
pub struct ClientView {
    pub base: Seq<char>,
    pub auth: Option<Seq<char>>,
    pub formats: Seq<Seq<char>>,
    pub limit: usize,
    pub library: Option<Seq<char>>,
}

impl View for Client {
    type V = ClientView;

    open spec fn view(&self) -> ClientView {
        ClientView {
            base: self.base@,
            auth: opt_text(self.auth),
            formats: texts(self.formats@),
            limit: self.limit,
            library: opt_text(self.library),
        }
    }
}

/// The `Authorization` header of basic authentication.
pub open spec fn basic_auth(user: Seq<char>, password: Seq<char>) -> Seq<char> {
    "Basic "@ + base64_text(encode_utf8(user + ":"@ + password))
}

/// The client for the given settings.
pub open spec fn client_for(cfg: ConfigView) -> ClientView {
    ClientView {
        base: strip_end(cfg.server, Strip::Slash),
        auth: match cfg.user {
            Some(user) => Some(
                basic_auth(
                    user,
                    match cfg.password {
                        Some(password) => password,
                        None => Seq::empty(),
                    },
                ),
            ),
            None => None,
        },
        formats: cfg.formats,
        limit: cfg.limit,
        library: cfg.library,
    }
}

/// The address of the search for the books added last.
pub open spec fn search_url(client: ClientView) -> Seq<char> {
    let place = match client.library {
        Some(library) => client.base + "/ajax/search/"@ + percent_text(encode_utf8(library)),
        None => client.base + "/ajax/search"@,
    };
    place + "?num="@ + decimal(client.limit as nat) + "&sort=timestamp&sort_order=desc"@
}

/// Book ids with commas between them.
pub open spec fn ids_text(ids: Seq<i64>) -> Seq<char> {
    joined(Seq::new(ids.len(), |i: int| signed_decimal(ids[i] as int)), ","@)
}

/// The address of what the server knows of some books.
pub open spec fn books_url(client: ClientView, ids: Seq<i64>) -> Seq<char> {
    let place = match client.library {
        Some(library) => client.base + "/ajax/books/"@ + percent_text(encode_utf8(library)),
        None => client.base + "/ajax/books"@,
    };
    place + "?ids="@ + ids_text(ids)
}

/// The address of a thumbnail of the cover of a book.
pub open spec fn thumbnail_url(
    base: Seq<char>,
    library: Seq<char>,
    id: i64,
    width: u32,
    height: u32,
) -> Seq<char> {
    base + "/get/thumb/"@ + signed_decimal(id as int) + "/"@ + percent_text(encode_utf8(library))
        + "?sz="@ + decimal(width as nat) + "x"@ + decimal(height as nat)
}

/// The address of a book in a format.
pub open spec fn book_url(
    base: Seq<char>,
    library: Seq<char>,
    format: Seq<char>,
    id: i64,
) -> Seq<char> {
    base + "/get/"@ + format + "/"@ + signed_decimal(id as int) + "/"@ + percent_text(
        encode_utf8(library),
    )
}

/// Book ids with commas between them.
fn join_ids(ids: &[i64]) -> (r: String)
    ensures
        r@ == ids_text(ids@),
{
    let mut parts: Vec<String> = Vec::new();
    let ghost all = Seq::new(ids@.len(), |i: int| signed_decimal(ids@[i] as int));
    for i in 0..ids.len()
        invariant
            all == Seq::new(ids@.len(), |i: int| signed_decimal(ids@[i] as int)),
            texts(parts@) == all.take(i as int),
    {
        let mut part: String = String::new();
        push_signed(&mut part, ids[i]);
        assert(part@ =~= signed_decimal(ids@[i as int] as int));
        let ghost was = parts@;
        let ghost text = part@;
        parts.push(part);
        assert(texts(parts@) =~= texts(was).push(text));
        assert(all.take(i + 1) =~= all.take(i as int).push(all[i as int]));
    }
    assert(all.take(all.len() as int) =~= all);
    join(&parts, ",")
}

impl Client {
    /// The client for the given settings.
    pub fn new(cfg: &Config) -> (r: Self)
        ensures
            r@ == client_for(cfg@),
    {
        let auth = match &cfg.user {
            Some(user) => {
                let mut pair: String = user.clone();
                pair.append(":");
                if let Some(password) = &cfg.password {
                    pair.append(password.as_str());
                }
                assert(pair@ =~= user@ + ":"@ + match cfg.password {
                    Some(password) => password@,
                    None => Seq::empty(),
                });
                let mut header: String = "Basic ".to_string();
                header.append(base64(pair.as_str().as_bytes()).as_str());
                Some(header)
            },
            None => None,
        };
        Client {
            base: strip(cfg.server.as_str(), None, Strip::Slash),
            auth,
            formats: copy_list(&cfg.formats),
            limit: cfg.limit,
            library: copy_opt(&cfg.library),
        }
    }

    /// A request for the given address, with the credentials of the client.
    pub fn get(&self, url: String) -> (r: Get)
        ensures
            r@ == (GetView { url: url@, auth: self@.auth }),
    {
        Get { url, auth: copy_opt(&self.auth) }
    }

    /// The request for the books added last.
    pub fn search(&self) -> (r: Get)
        ensures
            r@ == (GetView { url: search_url(self@), auth: self@.auth }),
    {
        let mut url: String = self.base.clone();
        match &self.library {
            Some(library) => {
                url.append("/ajax/search/");
                url.append(urlencode(library.as_str()).as_str());
            },
            None => {
                url.append("/ajax/search");
            },
        }
        url.append("?num=");
        push_decimal(&mut url, self.limit as u64);
        url.append("&sort=timestamp&sort_order=desc");
        self.get(url)
    }

    /// The request for what the server knows of some books.
    pub fn metadata(&self, ids: &[i64]) -> (r: Get)
        ensures
            r@ == (GetView { url: books_url(self@, ids@), auth: self@.auth }),
    {
        let mut url: String = self.base.clone();
        match &self.library {
            Some(library) => {
                url.append("/ajax/books/");
                url.append(urlencode(library.as_str()).as_str());
            },
            None => {
                url.append("/ajax/books");
            },
        }
        url.append("?ids=");
        url.append(join_ids(ids).as_str());
        self.get(url)
    }

    /// The request for a JPEG thumbnail of a cover. To have the server scale is cheaper than to
    /// fetch the whole cover.
    pub fn thumbnail(&self, id: i64, width: u32, height: u32) -> (r: Result<Get, Error>)
        ensures
            match self@.library {
                Some(library) => r is Ok && r->Ok_0@ == (GetView {
                    url: thumbnail_url(self@.base, library, id, width, height),
                    auth: self@.auth,
                }),
                None => r is Err && r->Err_0@ == ErrorView::NoLibrary,
            },
    {
        match &self.library {
            Some(library) => {
                let mut url: String = self.base.clone();
                url.append("/get/thumb/");
                push_signed(&mut url, id);
                url.append("/");
                url.append(urlencode(library.as_str()).as_str());
                url.append("?sz=");
                push_decimal(&mut url, width as u64);
                url.append("x");
                push_decimal(&mut url, height as u64);
                Ok(self.get(url))
            },
            None => Err(Error::NoLibrary),
        }
    }
}

} // verus!
