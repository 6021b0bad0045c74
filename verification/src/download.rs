//! Downloading a book: into a temporary file beside the target, which is then renamed, so that a
//! download cut short leaves no broken file in the library of the device.
use vstd::prelude::*;

use crate::calibre::{book_url, Book, BookView, Client, ClientView, Error, ErrorView, Get, GetView};
use crate::config::{forbidden, safe_name, sanitize_filename, sanitized, sanitized_names_are_safe};
use crate::encoding::urlencode;
use crate::number::push_signed;
use crate::path::{join_path, path_joined};
use crate::text::{lowercase_of, to_lowercase};

verus! {

/// The stem of the file name of a book. The fallbacks are fixed, so that what lands on disk does
/// not depend on the UI language.
pub open spec fn file_stem(author: Seq<char>, title: Seq<char>) -> Seq<char> {
    let shown_author = if author.len() == 0 {
        "Unknown author"@
    } else {
        author
    };
    let shown_title = if title.len() == 0 {
        "Untitled"@
    } else {
        title
    };
    sanitized(shown_author + " - "@ + shown_title)
}

/// The file that a book is downloaded to, given the extension of its format.
pub open spec fn target_path(book: BookView, dir: Seq<char>, extension: Seq<char>) -> Seq<char> {
    path_joined(dir, file_stem(book.author, book.title) + "."@ + extension)
}

/// The file that a book is downloaded into first.
pub open spec fn temp_path(book: BookView, dir: Seq<char>) -> Seq<char> {
    path_joined(dir, "."@ + file_stem(book.author, book.title) + ".part"@)
}

/// The stem of the file name of a book.
fn make_stem(book: &Book) -> (r: String)
    ensures
        r@ == file_stem(book@.author, book@.title),
{
    let mut name: String = if book.author.as_str().is_empty() {
        "Unknown author".to_string()
    } else {
        book.author.clone()
    };
    name.append(" - ");
    if book.title.as_str().is_empty() {
        name.append("Untitled");
    } else {
        name.append(book.title.as_str());
    }
    sanitize_filename(name.as_str())
}

/// A download: where to, by way of which file, and what to ask the server for.
#[derive(Debug)]
pub struct Download {
    pub dir: String,
    pub target: String,
    pub temp: String,
    pub get: Get,
}

/// A download.
#[verifier::ext_equal]
pub struct DownloadView {
    pub dir: Seq<char>,
    pub target: Seq<char>,
    pub temp: Seq<char>,
    pub get: GetView,
}

impl View for Download {
    type V = DownloadView;

    open spec fn view(&self) -> DownloadView {
        DownloadView {
            dir: self.dir@,
            target: self.target@,
            temp: self.temp@,
            get: self.get@,
        }
    }
}

/// The download of a book in a format, given the extension of that format.
pub open spec fn download_of(
    client: ClientView,
    library: Seq<char>,
    book: BookView,
    format: Seq<char>,
    dir: Seq<char>,
    extension: Seq<char>,
) -> DownloadView {
    DownloadView {
        dir,
        target: target_path(book, dir, extension),
        temp: temp_path(book, dir),
        get: GetView { url: book_url(client.base, library, format, book.id), auth: client.auth },
    }
}

/// The download that a client plans: it takes a format and a library, in this order.
pub open spec fn planned(
    client: ClientView,
    book: BookView,
    dir: Seq<char>,
    extension: Seq<char>,
) -> Result<DownloadView, ErrorView> {
    match (book.format, client.library) {
        (None, _) => Err(ErrorView::NoFormat),
        (Some(_), None) => Err(ErrorView::NoLibrary),
        (Some(format), Some(library)) => Ok(
            download_of(client, library, book, format, dir, extension),
        ),
    }
}

impl Client {
    /// Plans the download of a book into a directory.
    pub fn download(&self, book: &Book, dir: &str) -> (r: Result<Download, Error>)
        ensures
            match (planned(
                self@,
                book@,
                dir@,
                lowercase_of(
                    match book@.format {
                        Some(format) => format,
                        None => Seq::empty(),
                    },
                ),
            ), r) {
                (Ok(plan), Ok(d)) => d@ == plan,
                (Err(why), Err(e)) => e@ == why,
                _ => false,
            },
    {
        match &book.format {
            Some(format) => {
                let extension = to_lowercase(format.as_str());
                self.plan(book, dir, extension.as_str())
            },
            None => Err(Error::NoFormat),
        }
    }

    /// Plans the download of a book into a directory, given the extension of its format.
    pub fn plan(&self, book: &Book, dir: &str, extension: &str) -> (r: Result<Download, Error>)
        ensures
            match (planned(self@, book@, dir@, extension@), r) {
                (Ok(plan), Ok(d)) => d@ == plan,
                (Err(why), Err(e)) => e@ == why,
                _ => false,
            },
    {
        let format = match &book.format {
            Some(format) => format,
            None => {
                return Err(Error::NoFormat);
            },
        };
        let library = match &self.library {
            Some(library) => library,
            None => {
                return Err(Error::NoLibrary);
            },
        };
        let stem = make_stem(book);
        let mut name: String = stem.clone();
        name.append(".");
        name.append(extension);
        let mut part: String = ".".to_string();
        part.append(stem.as_str());
        part.append(".part");
        let mut url: String = self.base.clone();
        url.append("/get/");
        url.append(format.as_str());
        url.append("/");
        push_signed(&mut url, book.id);
        url.append("/");
        url.append(urlencode(library.as_str()).as_str());
        Ok(
            Download {
                dir: dir.to_string(),
                target: join_path(dir, name.as_str()),
                temp: join_path(dir, part.as_str()),
                get: self.get(url),
            },
        )
    }
}

/// What a download does next.
#[derive(Debug)]
pub enum DownloadStep {
    /// See that the directory is there.
    MakeDir,
    /// Look whether the target is there already.
    Check,
    /// Get the book into the temporary file.
    Fetch,
    /// Fetching failed: remove the temporary file.
    Discard(String),
    /// Rename the temporary file to the target.
    Rename,
    /// The book is in the target.
    Done,
    /// The download failed.
    Failed(String),
}

/// What a download does next.
pub enum DownloadStepView {
    MakeDir,
    Check,
    Fetch,
    Discard(Seq<char>),
    Rename,
    Done,
    Failed(Seq<char>),
}

impl View for DownloadStep {
    type V = DownloadStepView;

    open spec fn view(&self) -> DownloadStepView {
        match *self {
            DownloadStep::MakeDir => DownloadStepView::MakeDir,
            DownloadStep::Check => DownloadStepView::Check,
            DownloadStep::Fetch => DownloadStepView::Fetch,
            DownloadStep::Discard(e) => DownloadStepView::Discard(e@),
            DownloadStep::Rename => DownloadStepView::Rename,
            DownloadStep::Done => DownloadStepView::Done,
            DownloadStep::Failed(e) => DownloadStepView::Failed(e@),
        }
    }
}

/// What follows a step, given how it went: an error, or, of a look at the target, whether it is
/// there. A target that is there is kept. Whether a temporary file could be removed does not
/// matter.
pub open spec fn download_after(
    step: DownloadStepView,
    outcome: Result<bool, Seq<char>>,
) -> DownloadStepView {
    match (step, outcome) {
        (DownloadStepView::MakeDir, Ok(_)) => DownloadStepView::Check,
        (DownloadStepView::MakeDir, Err(e)) => DownloadStepView::Failed(e),
        (DownloadStepView::Check, Ok(true)) => DownloadStepView::Done,
        (DownloadStepView::Check, Ok(false)) => DownloadStepView::Fetch,
        (DownloadStepView::Check, Err(_)) => DownloadStepView::Fetch,
        (DownloadStepView::Fetch, Ok(_)) => DownloadStepView::Rename,
        (DownloadStepView::Fetch, Err(e)) => DownloadStepView::Discard(e),
        (DownloadStepView::Discard(e), _) => DownloadStepView::Failed(e),
        (DownloadStepView::Rename, Ok(_)) => DownloadStepView::Done,
        (DownloadStepView::Rename, Err(e)) => DownloadStepView::Failed(e),
        (DownloadStepView::Done, _) => DownloadStepView::Done,
        (DownloadStepView::Failed(e), _) => DownloadStepView::Failed(e),
    }
}

impl DownloadStep {
    /// What follows the step, given how it went.
    pub fn next(self, outcome: Result<bool, String>) -> (r: DownloadStep)
        ensures
            r@ == download_after(
                self@,
                match outcome {
                    Ok(there) => Ok(there),
                    Err(e) => Err(e@),
                },
            ),
    {
        match (self, outcome) {
            (DownloadStep::MakeDir, Ok(_)) => DownloadStep::Check,
            (DownloadStep::MakeDir, Err(e)) => DownloadStep::Failed(e),
            (DownloadStep::Check, Ok(there)) => if there {
                DownloadStep::Done
            } else {
                DownloadStep::Fetch
            },
            (DownloadStep::Check, Err(_)) => DownloadStep::Fetch,
            (DownloadStep::Fetch, Ok(_)) => DownloadStep::Rename,
            (DownloadStep::Fetch, Err(e)) => DownloadStep::Discard(e),
            (DownloadStep::Discard(e), _) => DownloadStep::Failed(e),
            (DownloadStep::Rename, Ok(_)) => DownloadStep::Done,
            (DownloadStep::Rename, Err(e)) => DownloadStep::Failed(e),
            (DownloadStep::Done, _) => DownloadStep::Done,
            (DownloadStep::Failed(e), _) => DownloadStep::Failed(e),
        }
    }
}

/// A download comes to its end only by a target that was there, by a rename, or by an error; and
/// when fetching fails, the temporary file is removed before that error is reported.
pub proof fn downloads_end_cleanly(step: DownloadStepView, outcome: Result<bool, Seq<char>>)
    requires
        !(step is Done),
        !(step is Failed),
    ensures
        download_after(step, outcome) is Done ==> step is Check && outcome == Ok::<bool, Seq<char>>(
            true,
        ) || step is Rename && outcome is Ok,
        step is Fetch && outcome is Err ==> {
            let discard = download_after(step, outcome);
            &&& discard == DownloadStepView::Discard(outcome->Err_0)
            &&& forall|removal: Result<bool, Seq<char>>| #[trigger]
                download_after(discard, removal) == DownloadStepView::Failed(outcome->Err_0)
        },
        download_after(step, outcome) is Rename ==> step is Fetch && outcome is Ok,
        download_after(step, outcome) is Fetch ==> step is Check,
{
}

/// The temporary file is never the target.
pub proof fn temporary_file_is_apart(book: BookView, dir: Seq<char>, extension: Seq<char>)
    ensures
        temp_path(book, dir) != target_path(book, dir, extension),
{
    let stem = file_stem(book.author, book.title);
    let shown_author = if book.author.len() == 0 {
        "Unknown author"@
    } else {
        book.author
    };
    let shown_title = if book.title.len() == 0 {
        "Untitled"@
    } else {
        book.title
    };
    sanitized_names_are_safe(shown_author + " - "@ + shown_title);
    assert(safe_name(stem));
    reveal_strlit(".");
    reveal_strlit(".part");
    let part = "."@ + stem + ".part"@;
    let name = stem + "."@ + extension;
    assert(part != name) by {
        if part == name {
            assert forall|i: int| 0 <= i < stem.len() implies stem[i] == '.' by {
                lemma_all_dots(stem, part, i);
            }
            assert(stem.last() == '.');
        }
    }
    assert(part[0] == '.');
    assert(name[0] == stem[0]);
    assert(!forbidden(stem[0]));
    lemma_join_injective(dir, part, name);
}

/// A text that is the same one place further on begins with dots throughout, if with one.
proof fn lemma_all_dots(stem: Seq<char>, shifted: Seq<char>, i: int)
    requires
        0 <= i < stem.len(),
        shifted.len() > stem.len(),
        shifted[0] == '.',
        forall|k: int| 0 <= k < stem.len() ==> #[trigger] shifted[k + 1] == stem[k],
        forall|k: int| 0 <= k < stem.len() ==> #[trigger] stem[k] == shifted[k],
    ensures
        stem[i] == '.',
    decreases i,
{
    if i > 0 {
        lemma_all_dots(stem, shifted, i - 1);
        assert(shifted[(i - 1) + 1] == stem[i - 1]);
    }
}

/// Different relative names in one directory are different paths.
proof fn lemma_join_injective(dir: Seq<char>, a: Seq<char>, b: Seq<char>)
    requires
        a != b,
        a.len() > 0,
        b.len() > 0,
        a[0] != '/',
        b[0] != '/',
    ensures
        path_joined(dir, a) != path_joined(dir, b),
{
    let front = if dir.len() == 0 || dir.last() == '/' {
        dir
    } else {
        dir.push('/')
    };
    assert(path_joined(dir, a) == front + a);
    assert(path_joined(dir, b) == front + b);
    if front + a == front + b {
        assert((front + a).skip(front.len() as int) =~= a);
        assert((front + b).skip(front.len() as int) =~= b);
    }
}

} // verus!
