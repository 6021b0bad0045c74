//! Fetching the list of books: first the ids of the books added last, then what the server knows
//! of them, batch by batch.
use std::collections::HashMap;
use vstd::prelude::*;
use vstd::std_specs::hash::group_hash_axioms;

use crate::calibre::{book_views, books_url, search_url, Book, BookView, Client, ClientView, Error,
    ErrorView, Get, GetView};
use crate::json::{field, field_trees, json_outcome, lemma_field_trees, lemma_trees, trees, Json,
    JsonTree};
use crate::number::{parse_i64, parsed_i64};
use crate::text::{join, joined, opt_text, texts, uppercase_all, uppercased};

verus! {

/// The numbers of a list, in order; whatever else stands in it is passed over.
pub open spec fn ints(items: Seq<JsonTree>) -> Seq<i64>
    decreases items.len(),
{
    if items.len() == 0 {
        Seq::empty()
    } else {
        match items.last() {
            JsonTree::Int(n) => ints(items.drop_last()).push(n),
            _ => ints(items.drop_last()),
        }
    }
}

/// The texts of a list, in order; whatever else stands in it is passed over.
pub open spec fn strings(items: Seq<JsonTree>) -> Seq<Seq<char>>
    decreases items.len(),
{
    if items.len() == 0 {
        Seq::empty()
    } else {
        match items.last() {
            JsonTree::Text(s) => strings(items.drop_last()).push(s),
            _ => strings(items.drop_last()),
        }
    }
}

/// The text under a key, if it is one.
pub open spec fn text_field(doc: JsonTree, key: Seq<char>) -> Option<Seq<char>> {
    match field(doc, key) {
        Some(JsonTree::Text(s)) => Some(s),
        _ => None,
    }
}

/// The list under a key, if it is one.
pub open spec fn list_field(doc: JsonTree, key: Seq<char>) -> Option<Seq<JsonTree>> {
    match field(doc, key) {
        Some(JsonTree::List(items)) => Some(items),
        _ => None,
    }
}

/// The texts of the list under a key; none where there is no list.
pub open spec fn strings_field(doc: JsonTree, key: Seq<char>) -> Seq<Seq<char>> {
    match list_field(doc, key) {
        Some(items) => strings(items),
        None => Seq::empty(),
    }
}

fn read_text(doc: &Json, key: &str) -> (r: Option<String>)
    ensures
        opt_text(r) == text_field(doc.tree(), key@),
{
    match doc.get(key) {
        Some(value) => match value {
            Json::Text(s) => Some(s.clone()),
            _ => None,
        },
        None => None,
    }
}

fn read_ints(doc: &Json, key: &str) -> (r: Option<Vec<i64>>)
    ensures
        match list_field(doc.tree(), key@) {
            Some(items) => r is Some && r->0@ == ints(items),
            None => r is None,
        },
{
    let items = match doc.get(key) {
        Some(value) => match value {
            Json::List(items) => items,
            _ => {
                return None;
            },
        },
        None => {
            return None;
        },
    };
    let ghost all = trees(items@);
    proof {
        lemma_trees(items@);
    }
    let mut out: Vec<i64> = Vec::new();
    assert(all.take(0) =~= Seq::empty());
    for i in 0..items.len()
        invariant
            all == Seq::new(items@.len(), |j: int| items@[j].tree()),
            out@ == ints(all.take(i as int)),
    {
        assert(all.take(i + 1).drop_last() =~= all.take(i as int));
        assert(all.take(i + 1).last() == items@[i as int].tree());
        if let Json::Int(n) = &items[i] {
            out.push(*n);
        }
    }
    assert(all.take(all.len() as int) =~= all);
    Some(out)
}

fn read_strings(doc: &Json, key: &str) -> (r: Vec<String>)
    ensures
        texts(r@) == strings_field(doc.tree(), key@),
{
    let mut out: Vec<String> = Vec::new();
    assert(texts(out@) =~= Seq::empty());
    let items = match doc.get(key) {
        Some(value) => match value {
            Json::List(items) => items,
            _ => {
                return out;
            },
        },
        None => {
            return out;
        },
    };
    let ghost all = trees(items@);
    proof {
        lemma_trees(items@);
    }
    assert(all.take(0) =~= Seq::empty());
    for i in 0..items.len()
        invariant
            all == Seq::new(items@.len(), |j: int| items@[j].tree()),
            texts(out@) == strings(all.take(i as int)),
    {
        assert(all.take(i + 1).drop_last() =~= all.take(i as int));
        assert(all.take(i + 1).last() == items@[i as int].tree());
        if let Json::Text(s) = &items[i] {
            let ghost was = out@;
            out.push(s.clone());
            assert(texts(out@) =~= texts(was).push(s@));
        }
    }
    assert(all.take(all.len() as int) =~= all);
    out
}

/// What a reply says of one book, its formats as the server writes them.
#[derive(Debug)]
pub struct Entry {
    pub id: i64,
    pub title: String,
    pub author: String,
    pub formats: Vec<String>,
}

/// What a reply says of one book.
#[verifier::ext_equal]
pub struct EntryView {
    pub id: i64,
    pub title: Seq<char>,
    pub author: Seq<char>,
    pub formats: Seq<Seq<char>>,
}

impl View for Entry {
    type V = EntryView;

    open spec fn view(&self) -> EntryView {
        EntryView {
            id: self.id,
            title: self.title@,
            author: self.author@,
            formats: texts(self.formats@),
        }
    }
}

/// What a reply says of the book under `key`; nothing where it is null or the key is no id.
/// A title or an author that is missing stays empty.
pub open spec fn entry_of(key: Seq<char>, meta: JsonTree) -> Option<EntryView> {
    match (meta, parsed_i64(key)) {
        (JsonTree::Null, _) => None,
        (_, None) => None,
        (_, Some(id)) => Some(
            EntryView {
                id,
                title: match text_field(meta, "title"@) {
                    Some(title) => title,
                    None => Seq::empty(),
                },
                author: joined(strings_field(meta, "authors"@), ", "@),
                formats: strings_field(meta, "formats"@),
            },
        ),
    }
}

/// What a reply says of the book under `key`; nothing where it is null or the key is no id.
pub fn read_entry(key: &str, meta: &Json) -> (r: Option<Entry>)
    ensures
        match entry_of(key@, meta.tree()) {
            Some(entry) => r is Some && r->0@ == entry,
            None => r is None,
        },
{
    if let Json::Null = meta {
        return None;
    }
    let id: i64 = match parse_i64(key) {
        Some(id) => id,
        None => {
            return None;
        },
    };
    let title = match read_text(meta, "title") {
        Some(title) => title,
        None => String::new(),
    };
    let authors = read_strings(meta, "authors");
    let formats = read_strings(meta, "formats");
    Some(Entry { id, title, author: join(&authors, ", "), formats })
}

/// The first of the wanted formats that is available.
pub open spec fn first_available(wanted: Seq<Seq<char>>, available: Seq<Seq<char>>) -> Option<
    Seq<char>,
>
    decreases wanted.len(),
{
    if wanted.len() == 0 {
        None
    } else if available.contains(wanted[0]) {
        Some(wanted[0])
    } else {
        first_available(wanted.drop_first(), available)
    }
}

fn has(list: &Vec<String>, item: &String) -> (r: bool)
    ensures
        r == texts(list@).contains(item@),
{
    for i in 0..list.len()
        invariant
            forall|j: int| 0 <= j < i ==> texts(list@)[j] != item@,
    {
        if list[i] == *item {
            assert(texts(list@)[i as int] == item@);
            return true;
        }
    }
    false
}

/// The first of the wanted formats that is available.
pub fn choose_format(wanted: &Vec<String>, available: &Vec<String>) -> (r: Option<String>)
    ensures
        opt_text(r) == first_available(texts(wanted@), texts(available@)),
{
    let ghost all = texts(wanted@);
    assert(all.skip(0) =~= all);
    for i in 0..wanted.len()
        invariant
            all == texts(wanted@),
            first_available(all, texts(available@)) == first_available(
                all.skip(i as int),
                texts(available@),
            ),
    {
        if has(available, &wanted[i]) {
            return Some(wanted[i].clone());
        }
        assert(all.skip(i as int).drop_first() =~= all.skip(i + 1));
    }
    None
}

/// The book that an entry stands for, given its formats in capitals.
pub open spec fn book_from(
    entry: EntryView,
    wanted: Seq<Seq<char>>,
    available: Seq<Seq<char>>,
) -> BookView {
    BookView {
        id: entry.id,
        title: entry.title,
        author: entry.author,
        format: first_available(wanted, available),
    }
}

/// The book that an entry stands for, given its formats in capitals.
pub fn to_book(entry: Entry, wanted: &Vec<String>, available: &Vec<String>) -> (r: Book)
    ensures
        r@ == book_from(entry@, texts(wanted@), texts(available@)),
{
    Book {
        id: entry.id,
        title: entry.title,
        author: entry.author,
        format: choose_format(wanted, available),
    }
}

/// The books that the entries of a reply stand for, in their order.
pub open spec fn books_in(
    entries: Seq<(Seq<char>, JsonTree)>,
    wanted: Seq<Seq<char>>,
) -> Seq<BookView>
    decreases entries.len(),
{
    if entries.len() == 0 {
        Seq::empty()
    } else {
        let before = books_in(entries.drop_last(), wanted);
        match entry_of(entries.last().0, entries.last().1) {
            Some(entry) => before.push(book_from(entry, wanted, uppercased(entry.formats))),
            None => before,
        }
    }
}

/// Reads the books out of a reply, which must be an object.
pub fn read_books(doc: &Json, wanted: &Vec<String>) -> (r: Result<Vec<Book>, Error>)
    ensures
        match doc.tree() {
            JsonTree::Fields(entries) => r is Ok && book_views(r->Ok_0@) == books_in(
                entries,
                texts(wanted@),
            ),
            _ => r is Err && r->Err_0@ == ErrorView::NotAnObject,
        },
{
    let entries = match doc {
        Json::Fields(entries) => entries,
        _ => {
            return Err(Error::NotAnObject);
        },
    };
    let ghost all = field_trees(entries@);
    proof {
        lemma_field_trees(entries@);
    }
    let mut out: Vec<Book> = Vec::new();
    assert(all.take(0) =~= Seq::empty());
    assert(book_views(out@) =~= Seq::empty());
    for i in 0..entries.len()
        invariant
            all == Seq::new(entries@.len(), |j: int| (entries@[j].0@, entries@[j].1.tree())),
            book_views(out@) == books_in(all.take(i as int), texts(wanted@)),
    {
        assert(all.take(i + 1).drop_last() =~= all.take(i as int));
        assert(all.take(i + 1).last() == (entries@[i as int].0@, entries@[i as int].1.tree()));
        if let Some(entry) = read_entry(entries[i].0.as_str(), &entries[i].1) {
            let available = uppercase_all(&entry.formats);
            let ghost was = out@;
            let book = to_book(entry, wanted, &available);
            let ghost seen = book@;
            out.push(book);
            assert(book_views(out@) =~= book_views(was).push(seen));
        }
    }
    assert(all.take(all.len() as int) =~= all);
    Ok(out)
}

/// The last of the books that has the given id.
pub open spec fn last_with(books: Seq<BookView>, id: i64) -> Option<BookView>
    decreases books.len(),
{
    if books.len() == 0 {
        None
    } else if books.last().id == id {
        Some(books.last())
    } else {
        last_with(books.drop_last(), id)
    }
}

/// The books in the order of `ids`: for each id at its first place, the last book that has it,
/// if there is one.
pub open spec fn ordered(ids: Seq<i64>, books: Seq<BookView>) -> Seq<BookView>
    decreases ids.len(),
{
    if ids.len() == 0 {
        Seq::empty()
    } else {
        let before = ordered(ids.drop_last(), books);
        if ids.drop_last().contains(ids.last()) {
            before
        } else {
            match last_with(books, ids.last()) {
                Some(book) => before.push(book),
                None => before,
            }
        }
    }
}

/// Puts the books into the order of `ids`. The order of the search, by date added, matters more
/// than that of the replies.
pub fn order_books(ids: &Vec<i64>, books: Vec<Book>) -> (r: Vec<Book>)
    ensures
        book_views(r@) == ordered(ids@, book_views(books@)),
{
    broadcast use group_hash_axioms;

    let ghost all = book_views(books@);
    let mut by_id: HashMap<i64, Book> = HashMap::new();
    assert(all.take(0) =~= Seq::empty());
    for i in 0..books.len()
        invariant
            all == book_views(books@),
            forall|id: i64|
                #![trigger by_id@.contains_key(id)]
                #![trigger last_with(all.take(i as int), id)]
                last_with(all.take(i as int), id) == if by_id@.contains_key(id) {
                    Some(by_id@[id]@)
                } else {
                    None
                },
    {
        assert(all.take(i + 1).drop_last() =~= all.take(i as int));
        assert(all.take(i + 1).last() == books@[i as int]@);
        let book = books[i].clone();
        let ghost was = by_id@;
        by_id.insert(book.id, book);
        assert forall|id: i64|
            #![trigger by_id@.contains_key(id)]
            #![trigger last_with(all.take(i + 1), id)]
            last_with(all.take(i + 1), id) == if by_id@.contains_key(id) {
                Some(by_id@[id]@)
            } else {
                None
            } by {
            assert(was.contains_key(id) || !was.contains_key(id));
        }
    }
    assert(all.take(all.len() as int) =~= all);
    let mut out: Vec<Book> = Vec::new();
    assert(ids@.take(0) =~= Seq::empty());
    assert(book_views(out@) =~= Seq::empty());
    for i in 0..ids.len()
        invariant
            book_views(out@) == ordered(ids@.take(i as int), all),
            forall|id: i64|
                #![trigger by_id@.contains_key(id)]
                #![trigger last_with(all, id)]
                by_id@.contains_key(id) <==> !ids@.take(i as int).contains(id) && last_with(
                    all,
                    id,
                ) is Some,
            forall|id: i64| #[trigger]
                by_id@.contains_key(id) ==> last_with(all, id) == Some(by_id@[id]@),
    {
        let id: i64 = ids[i];
        let ghost prefix = ids@.take(i as int);
        assert(ids@.take(i + 1).drop_last() =~= prefix);
        assert(ids@.take(i + 1) =~= prefix.push(id));
        assert forall|other: i64|
            ids@.take(i + 1).contains(other) <==> prefix.contains(other) || other == id by {
            if prefix.contains(other) {
                let k = choose|k: int| 0 <= k < prefix.len() && prefix[k] == other;
                assert(ids@.take(i + 1)[k] == other);
            }
            if other == id {
                assert(ids@.take(i + 1)[i as int] == other);
            }
        }
        let ghost known = last_with(all, id);
        match by_id.remove(&id) {
            Some(book) => {
                let ghost was = out@;
                let ghost seen = book@;
                out.push(book);
                assert(book_views(out@) =~= book_views(was).push(seen));
            },
            None => {},
        }
    }
    assert(ids@.take(ids@.len() as int) =~= ids@);
    out
}

/// The most ids that one request carries: some proxies cut longer addresses.
pub const BATCH: usize = 50;

/// Where the batch that begins at `from` ends.
pub open spec fn batch_end(ids: Seq<i64>, from: int) -> int {
    if from + BATCH < ids.len() {
        from + BATCH
    } else {
        ids.len() as int
    }
}

/// The ids of the batch that begins at `from`.
pub open spec fn batch(ids: Seq<i64>, from: int) -> Seq<i64> {
    ids.subrange(from, batch_end(ids, from))
}

/// How far fetching the list has come.
#[derive(Debug)]
pub enum Listing {
    /// The ids are being searched.
    Search,
    /// Of these ids, the first `done` are behind, and the next batch is being fetched; `books` is
    /// what came of those behind.
    Books { ids: Vec<i64>, done: usize, books: Vec<Book> },
}

/// How far fetching the list has come.
#[verifier::ext_equal]
pub enum ListingView {
    Search,
    Books { ids: Seq<i64>, done: nat, books: Seq<BookView> },
}

impl View for Listing {
    type V = ListingView;

    open spec fn view(&self) -> ListingView {
        match *self {
            Listing::Search => ListingView::Search,
            Listing::Books { ids, done, books } => ListingView::Books {
                ids: ids@,
                done: done as nat,
                books: book_views(books@),
            },
        }
    }
}

/// A batch that is being fetched has at least one id.
pub open spec fn listing_wf(listing: ListingView) -> bool {
    match listing {
        ListingView::Search => true,
        ListingView::Books { ids, done, .. } => done < ids.len(),
    }
}

/// What fetching the list does next.
#[derive(Debug)]
pub enum ListStep {
    /// Make the request, and come back with its reply.
    Fetch(Listing, Get),
    /// The list is complete.
    Done(Vec<Book>),
    /// Fetching failed.
    Failed(Error),
}

/// What fetching the list does next.
#[verifier::ext_equal]
pub enum ListStepView {
    Fetch(ListingView, GetView),
    Done(Seq<BookView>),
    Failed(ErrorView),
}

impl View for ListStep {
    type V = ListStepView;

    open spec fn view(&self) -> ListStepView {
        match *self {
            ListStep::Fetch(listing, get) => ListStepView::Fetch(listing@, get@),
            ListStep::Done(books) => ListStepView::Done(book_views(books@)),
            ListStep::Failed(e) => ListStepView::Failed(e@),
        }
    }
}

/// The client after the reply to a search: it knows the library that the server tells.
pub open spec fn after_search(client: ClientView, doc: JsonTree) -> ClientView {
    ClientView {
        library: match text_field(doc, "library_id"@) {
            Some(library) => Some(library),
            None => client.library,
        },
        ..client
    }
}

/// The step that fetches the batch at `done`.
pub open spec fn fetch_batch(
    client: ClientView,
    ids: Seq<i64>,
    done: nat,
    books: Seq<BookView>,
) -> ListStepView {
    ListStepView::Fetch(
        ListingView::Books { ids, done, books },
        GetView { url: books_url(client, batch(ids, done as int)), auth: client.auth },
    )
}

/// The client and the next step, once a document has come in.
pub open spec fn list_after(client: ClientView, listing: ListingView, doc: JsonTree) -> (
    ClientView,
    ListStepView,
) {
    match listing {
        ListingView::Search => {
            let next = after_search(client, doc);
            match list_field(doc, "book_ids"@) {
                None => (next, ListStepView::Failed(ErrorView::NoBookIds)),
                Some(items) => if ints(items).len() == 0 {
                    (next, ListStepView::Done(Seq::empty()))
                } else {
                    (next, fetch_batch(next, ints(items), 0, Seq::empty()))
                },
            }
        },
        ListingView::Books { ids, done, books } => match doc {
            JsonTree::Fields(entries) => {
                let more = books + books_in(entries, client.formats);
                let end = batch_end(ids, done as int);
                if end < ids.len() {
                    (client, fetch_batch(client, ids, end as nat, more))
                } else {
                    (client, ListStepView::Done(ordered(ids, more)))
                }
            },
            _ => (client, ListStepView::Failed(ErrorView::NotAnObject)),
        },
    }
}

/// The client and the next step, once a reply has come in, or the request has failed.
pub open spec fn list_after_reply(
    client: ClientView,
    listing: ListingView,
    reply: Result<Seq<u8>, Seq<char>>,
) -> (ClientView, ListStepView) {
    match reply {
        Err(e) => (client, ListStepView::Failed(ErrorView::Io(e))),
        Ok(bytes) => match json_outcome(bytes) {
            Err(e) => (client, ListStepView::Failed(ErrorView::Json(e))),
            Ok(doc) => list_after(client, listing, doc),
        },
    }
}

impl Client {
    /// Begins to fetch the list of the books added last: first their ids.
    pub fn list(&self) -> (r: ListStep)
        ensures
            r@ == ListStepView::Fetch(
                ListingView::Search,
                GetView { url: search_url(self@), auth: self@.auth },
            ),
    {
        ListStep::Fetch(Listing::Search, self.search())
    }

    /// Goes on with the list once a reply has come in, or the request has failed.
    pub fn list_reply(&mut self, listing: Listing, reply: Result<Vec<u8>, String>) -> (r: ListStep)
        ensures
            (final(self)@, r@) == list_after_reply(
                old(self)@,
                listing@,
                match reply {
                    Ok(bytes) => Ok(bytes@),
                    Err(e) => Err(e@),
                },
            ),
    {
        match reply {
            Err(e) => ListStep::Failed(Error::Io(e)),
            Ok(bytes) => match Json::parse(bytes.as_slice()) {
                Err(e) => ListStep::Failed(Error::Json(e)),
                Ok(doc) => self.list_document(listing, &doc),
            },
        }
    }

    /// Goes on with the list once a document has come in.
    pub fn list_document(&mut self, listing: Listing, doc: &Json) -> (r: ListStep)
        ensures
            (final(self)@, r@) == list_after(old(self)@, listing@, doc.tree()),
    {
        match listing {
            Listing::Search => {
                if let Some(library) = read_text(doc, "library_id") {
                    self.library = Some(library);
                }
                assert(self@ =~= after_search(old(self)@, doc.tree()));
                match read_ints(doc, "book_ids") {
                    None => ListStep::Failed(Error::NoBookIds),
                    Some(ids) => {
                        let books: Vec<Book> = Vec::new();
                        assert(book_views(books@) =~= Seq::empty());
                        if ids.len() == 0 {
                            ListStep::Done(books)
                        } else {
                            self.fetch(ids, 0, books)
                        }
                    },
                }
            },
            Listing::Books { ids, done, books } => match read_books(doc, &self.formats) {
                Err(e) => ListStep::Failed(e),
                Ok(more) => {
                    let mut all: Vec<Book> = books;
                    let mut more: Vec<Book> = more;
                    let ghost before = all@;
                    let ghost added = more@;
                    all.append(&mut more);
                    assert(book_views(all@) =~= book_views(before) + book_views(added));
                    let end: usize = if done < ids.len() && BATCH < ids.len() - done {
                        done + BATCH
                    } else {
                        ids.len()
                    };
                    if end < ids.len() {
                        self.fetch(ids, end, all)
                    } else {
                        ListStep::Done(order_books(&ids, all))
                    }
                },
            },
        }
    }

    fn fetch(&self, ids: Vec<i64>, done: usize, books: Vec<Book>) -> (r: ListStep)
        requires
            done < ids@.len(),
        ensures
            r@ == fetch_batch(self@, ids@, done as nat, book_views(books@)),
    {
        let end: usize = if BATCH < ids.len() - done {
            done + BATCH
        } else {
            ids.len()
        };
        let mut some: Vec<i64> = Vec::new();
        for i in done..end
            invariant
                done < ids@.len(),
                end == batch_end(ids@, done as int),
                some@ == ids@.subrange(done as int, i as int),
        {
            some.push(ids[i]);
            assert(some@ =~= ids@.subrange(done as int, i + 1));
        }
        let get = self.metadata(some.as_slice());
        ListStep::Fetch(Listing::Books { ids, done, books }, get)
    }
}

/// Every step that asks for another reply leaves the list where a reply can be taken.
pub proof fn listing_stays_well_formed(client: ClientView, listing: ListingView, doc: JsonTree)
    ensures
        list_after(client, listing, doc).1 matches ListStepView::Fetch(next, _) ==> listing_wf(next),
{
}

/// The batches of `ids` from `from` on.
pub open spec fn batches(ids: Seq<i64>, from: int) -> Seq<Seq<i64>>
    decreases ids.len() - from,
{
    if from >= ids.len() {
        Seq::empty()
    } else {
        seq![batch(ids, from)] + batches(ids, batch_end(ids, from))
    }
}

/// No request carries more than the limit of ids, none is empty, and one after another they carry
/// every id once and in order.
pub proof fn batches_cover_the_ids(ids: Seq<i64>, from: int)
    requires
        0 <= from <= ids.len(),
    ensures
        forall|i: int|
            0 <= i < batches(ids, from).len() ==> 0 < (#[trigger] batches(ids, from)[i]).len()
                <= BATCH,
        batches(ids, from).flatten() == ids.skip(from),
    decreases ids.len() - from,
{
    let all = batches(ids, from);
    if from < ids.len() {
        let end = batch_end(ids, from);
        batches_cover_the_ids(ids, end);
        let rest = batches(ids, end);
        assert forall|i: int| 0 <= i < all.len() implies 0 < (#[trigger] all[i]).len() <= BATCH by {
            if i > 0 {
                assert(all[i] == rest[i - 1]);
            }
        }
        assert(all.drop_first() =~= rest);
        assert(all.flatten() == batch(ids, from) + rest.flatten());
        assert(batch(ids, from) + ids.skip(end) =~= ids.skip(from));
    } else {
        assert(ids.skip(from) =~= Seq::empty());
    }
}

/// A book found by its id has that id and is one of the books; and every id that a book has is
/// found.
proof fn lemma_last_with(books: Seq<BookView>, id: i64)
    ensures
        match last_with(books, id) {
            Some(book) => book.id == id && books.contains(book),
            None => forall|i: int| 0 <= i < books.len() ==> (#[trigger] books[i]).id != id,
        },
    decreases books.len(),
{
    if books.len() > 0 {
        lemma_last_with(books.drop_last(), id);
        if books.last().id == id {
            assert(books[books.len() - 1] == books.last());
        } else if let Some(book) = last_with(books, id) {
            let i = choose|i: int| 0 <= i < books.len() - 1 && books.drop_last()[i] == book;
            assert(books[i] == book);
        } else {
            assert forall|i: int| 0 <= i < books.len() implies (#[trigger] books[i]).id != id by {
                if i < books.len() - 1 {
                    assert(books.drop_last()[i] == books[i]);
                }
            }
        }
    }
}

/// Where in `ids` an id stands first.
pub open spec fn first_place(ids: Seq<i64>, id: i64) -> int
    decreases ids.len(),
{
    if ids.len() == 0 {
        0
    } else if ids[0] == id {
        0
    } else {
        1 + first_place(ids.drop_first(), id)
    }
}

/// The first place of an id that a list has is a place that holds it, before every other such.
pub proof fn lemma_first_place(ids: Seq<i64>, i: int)
    requires
        0 <= i < ids.len(),
    ensures
        0 <= first_place(ids, ids[i]) <= i,
        ids[first_place(ids, ids[i])] == ids[i],
    decreases ids.len(),
{
    if ids[0] != ids[i] {
        lemma_first_place(ids.drop_first(), i - 1);
    }
}

/// The finished list holds a book for every id of the search that a reply knows, and nothing else.
pub proof fn the_list_has_the_books_found(ids: Seq<i64>, books: Seq<BookView>)
    ensures
        forall|i: int|
            0 <= i < ordered(ids, books).len() ==> books.contains(
                #[trigger] ordered(ids, books)[i],
            ) && ids.contains(ordered(ids, books)[i].id),
        forall|i: int, j: int|
            0 <= i < ids.len() && 0 <= j < books.len() && #[trigger] ids[i] == (
            #[trigger] books[j]).id ==> exists|k: int|
                0 <= k < ordered(ids, books).len() && (#[trigger] ordered(ids, books)[k]).id
                    == ids[i],
    decreases ids.len(),
{
    let all = ordered(ids, books);
    if ids.len() > 0 {
        let before = ordered(ids.drop_last(), books);
        the_list_has_the_books_found(ids.drop_last(), books);
        lemma_last_with(books, ids.last());
        assert forall|i: int| 0 <= i < all.len() implies books.contains(#[trigger] all[i])
            && ids.contains(all[i].id) by {
            if i < before.len() {
                assert(all[i] == before[i]);
                let k = choose|k: int| 0 <= k < ids.len() - 1 && ids.drop_last()[k] == before[i].id;
                assert(ids[k] == all[i].id);
            } else {
                assert(ids[ids.len() - 1] == all[i].id);
            }
        }
        assert forall|i: int, j: int|
            0 <= i < ids.len() && 0 <= j < books.len() && #[trigger] ids[i] == (
            #[trigger] books[j]).id implies exists|k: int|
            0 <= k < all.len() && (#[trigger] all[k]).id == ids[i] by {
            if ids.drop_last().contains(ids[i]) {
                let m = choose|m: int| 0 <= m < ids.len() - 1 && ids.drop_last()[m] == ids[i];
                assert(ids.drop_last()[m] == books[j].id);
                let k = choose|k: int|
                    0 <= k < before.len() && (#[trigger] before[k]).id == ids.drop_last()[m];
                assert(all[k] == before[k]);
            } else {
                assert(i == ids.len() - 1) by {
                    if i < ids.len() - 1 {
                        assert(ids.drop_last()[i] == ids[i]);
                    }
                }
                assert(all[all.len() - 1].id == ids[i]);
            }
        }
    }
}

/// The finished list keeps the order of the search, and no id occurs in it twice.
pub proof fn the_list_keeps_the_search_order(ids: Seq<i64>, books: Seq<BookView>, i: int, j: int)
    requires
        0 <= i < j < ordered(ids, books).len(),
    ensures
        first_place(ids, ordered(ids, books)[i].id) < first_place(ids, ordered(ids, books)[j].id),
        ordered(ids, books)[i].id != ordered(ids, books)[j].id,
    decreases ids.len(),
{
    let all = ordered(ids, books);
    let front = ids.drop_last();
    let before = ordered(front, books);
    the_list_has_the_books_found(front, books);
    lemma_last_with(books, ids.last());
    lemma_place_in_front(ids, before[i].id);
    if j < before.len() {
        the_list_keeps_the_search_order(front, books, i, j);
        lemma_place_in_front(ids, before[j].id);
    } else {
        let id = ids.last();
        assert(front.contains(before[i].id));
        lemma_first_place(ids, ids.len() - 1);
        let p = first_place(ids, id);
        assert(p == ids.len() - 1) by {
            if p < ids.len() - 1 {
                assert(front[p] == id);
            }
        }
        let k = choose|k: int| 0 <= k < front.len() && front[k] == before[i].id;
        lemma_first_place(front, k);
    }
}

/// What comes after an id does not change its first place.
proof fn lemma_place_in_front(ids: Seq<i64>, id: i64)
    requires
        ids.len() > 0,
        ids.drop_last().contains(id),
    ensures
        first_place(ids, id) == first_place(ids.drop_last(), id),
    decreases ids.len(),
{
    let front = ids.drop_last();
    let k = choose|k: int| 0 <= k < front.len() && front[k] == id;
    if ids[0] != id {
        assert(front.drop_first() =~= ids.drop_first().drop_last());
        assert(front.drop_first()[k - 1] == id);
        lemma_place_in_front(ids.drop_first(), id);
    }
}

/// The books of a run of replies.
pub open spec fn books_of_replies(docs: Seq<JsonTree>, wanted: Seq<Seq<char>>) -> Seq<BookView>
    decreases docs.len(),
{
    if docs.len() == 0 {
        Seq::empty()
    } else {
        match docs[0] {
            JsonTree::Fields(entries) => books_in(entries, wanted) + books_of_replies(
                docs.drop_first(),
                wanted,
            ),
            _ => books_of_replies(docs.drop_first(), wanted),
        }
    }
}

/// Where fetching comes to when the documents come in one after another.
pub open spec fn list_run(client: ClientView, listing: ListingView, docs: Seq<JsonTree>) -> (
    ClientView,
    ListStepView,
)
    recommends
        docs.len() > 0,
    decreases docs.len(),
{
    let (next, step) = list_after(client, listing, docs[0]);
    match step {
        ListStepView::Fetch(further, _) => if docs.len() > 1 {
            list_run(next, further, docs.drop_first())
        } else {
            (next, step)
        },
        _ => (next, step),
    }
}

/// Once every batch is answered by an object, the list is complete, and holds what all the answers
/// told, in the order of the search.
pub proof fn answered_batches_complete_the_list(
    client: ClientView,
    ids: Seq<i64>,
    done: nat,
    books: Seq<BookView>,
    docs: Seq<JsonTree>,
)
    requires
        done < ids.len(),
        docs.len() == batches(ids, done as int).len(),
        forall|i: int| 0 <= i < docs.len() ==> (#[trigger] docs[i]) is Fields,
    ensures
        list_run(client, ListingView::Books { ids, done, books }, docs) == (
            client,
            ListStepView::Done(ordered(ids, books + books_of_replies(docs, client.formats))),
        ),
    decreases docs.len(),
{
    let end = batch_end(ids, done as int);
    assert(docs[0] is Fields);
    let first = books_in(docs[0]->Fields_0, client.formats);
    assert(docs.drop_first().len() == batches(ids, end).len());
    if end < ids.len() {
        assert(batches(ids, end).len() > 0);
        answered_batches_complete_the_list(client, ids, end as nat, books + first, docs.drop_first());
        assert((books + first) + books_of_replies(docs.drop_first(), client.formats) =~= books
            + books_of_replies(docs, client.formats));
    } else {
        assert(books_of_replies(docs.drop_first(), client.formats) =~= Seq::empty());
        assert(books + first =~= books + books_of_replies(docs, client.formats));
    }
}

/// The whole of fetching the list: the reply to the search, then one object for each batch.
pub proof fn a_full_run_gives_the_list(client: ClientView, search: JsonTree, docs: Seq<JsonTree>)
    requires
        list_field(search, "book_ids"@) is Some,
        ({
            let ids = ints(list_field(search, "book_ids"@)->0);
            docs.len() == batches(ids, 0).len()
        }),
        forall|i: int| 0 <= i < docs.len() ==> (#[trigger] docs[i]) is Fields,
    ensures
        list_run(client, ListingView::Search, seq![search] + docs) == (
            after_search(client, search),
            ListStepView::Done(
                ordered(
                    ints(list_field(search, "book_ids"@)->0),
                    books_of_replies(docs, client.formats),
                ),
            ),
        ),
{
    let ids = ints(list_field(search, "book_ids"@)->0);
    let next = after_search(client, search);
    let all = seq![search] + docs;
    assert(all[0] == search);
    assert(all.drop_first() =~= docs);
    let none = Seq::<BookView>::empty();
    if ids.len() > 0 {
        assert(batches(ids, 0).len() > 0);
        answered_batches_complete_the_list(next, ids, 0, none, docs);
        assert(none + books_of_replies(docs, client.formats) =~= books_of_replies(
            docs,
            client.formats,
        ));
    }
}

} // verus!
