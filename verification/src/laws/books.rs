//! Laws of the list of books: what is read out of the replies of the server, and in which order the
//! books come.
use vstd::prelude::*;

use crate::calibre::{book_views, Book, BookView, Client, ClientView, Error, ErrorView};
use crate::json::{field, find_field, json_outcome, Json, JsonTree};
use crate::laws::requests::{asks_for_books, asks_for_search, lemma_books_url, lemma_search_url,
    same_text};
use crate::laws::texts::says_signed;
use crate::listing::{batch, books_in, choose_format, entry_of, first_available,
    first_place, ints, last_with, lemma_first_place, list_after, order_books, ordered,
    read_books, read_entry, strings, the_list_has_the_books_found, the_list_keeps_the_search_order,
    to_book, Entry, ListStep, ListStepView, Listing, ListingView};
use crate::number::{all_digits, is_digit, parsed_i64};
use crate::text::{joined, opt_text, texts, uppercased};

verus! {

/// Whether a value is the first that some entries have under a key; no value is where they have none.
pub open spec fn first_under(
    entries: Seq<(Seq<char>, JsonTree)>,
    key: Seq<char>,
    value: Option<JsonTree>,
) -> bool {
    match value {
        Some(found) => exists|i: int|
            {
                &&& 0 <= i < entries.len()
                &&& (#[trigger] entries[i]).0 == key
                &&& entries[i].1 == found
                &&& forall|j: int| 0 <= j < i ==> (#[trigger] entries[j]).0 != key
            },
        None => forall|j: int| 0 <= j < entries.len() ==> (#[trigger] entries[j]).0 != key,
    }
}

/// Whether a value is the first that a document has under a key; only objects have any.
pub open spec fn is_under(tree: JsonTree, key: Seq<char>, value: Option<JsonTree>) -> bool {
    match tree {
        JsonTree::Fields(entries) => first_under(entries, key, value),
        _ => value is None,
    }
}

/// A field is the first value that an object has under its key.
pub proof fn lemma_field(tree: JsonTree, key: Seq<char>)
    ensures
        is_under(tree, key, field(tree, key)),
{
    if let JsonTree::Fields(entries) = tree {
        lemma_find_field(entries, key);
    }
}

proof fn lemma_find_field(entries: Seq<(Seq<char>, JsonTree)>, key: Seq<char>)
    ensures
        first_under(entries, key, find_field(entries, key)),
    decreases entries.len(),
{
    if entries.len() == 0 {
    } else if entries[0].0 == key {
        assert(find_field(entries, key) == Some(entries[0].1));
    } else {
        let rest = entries.drop_first();
        lemma_find_field(rest, key);
        let value = find_field(rest, key);
        assert(find_field(entries, key) == value);
        if value is Some {
            let i = choose|i: int|
                {
                    &&& 0 <= i < rest.len()
                    &&& (#[trigger] rest[i]).0 == key
                    &&& rest[i].1 == value->0
                    &&& forall|j: int| 0 <= j < i ==> (#[trigger] rest[j]).0 != key
                };
            assert(entries[i + 1].0 == key);
            assert forall|j: int| 0 <= j < i + 1 implies (#[trigger] entries[j]).0 != key by {
                if j > 0 {
                    assert(rest[j - 1].0 != key);
                }
            }
        } else {
            assert forall|j: int| 0 <= j < entries.len() implies (#[trigger] entries[j]).0
                != key by {
                if j > 0 {
                    assert(rest[j - 1].0 != key);
                }
            }
        }
    }
}

/// A document gives the value that it has under a key, and none where it has none.
pub proof fn a_document_is_read_by_its_keys(doc: &Json, key: &str, r: Option<&Json>)
    requires
        call_ensures(Json::get, (doc, key), r),
    ensures
        is_under(
            doc.tree(),
            key@,
            match r {
                Some(value) => Some(value.tree()),
                None => None,
            },
        ),
{
    lemma_field(doc.tree(), key@);
}

/// The numbers and the texts of a list keep their order; whatever else stands in it is passed over.
pub proof fn lists_are_read_in_order(a: Seq<JsonTree>, b: Seq<JsonTree>, item: JsonTree)
    ensures
        ints(a + b) == ints(a) + ints(b),
        strings(a + b) == strings(a) + strings(b),
        ints(seq![item]) == match item {
            JsonTree::Int(n) => seq![n],
            _ => Seq::empty(),
        },
        strings(seq![item]) == match item {
            JsonTree::Text(s) => seq![s],
            _ => Seq::empty(),
        },
    decreases b.len(),
{
    reveal_with_fuel(ints, 2);
    reveal_with_fuel(strings, 2);
    assert(seq![item].drop_last() =~= Seq::empty());
    assert(ints(Seq::<JsonTree>::empty()) =~= Seq::empty());
    assert(strings(Seq::<JsonTree>::empty()) =~= Seq::empty());
    assert(ints(seq![item]) =~= match item {
        JsonTree::Int(n) => seq![n],
        _ => Seq::empty(),
    });
    assert(strings(seq![item]) =~= match item {
        JsonTree::Text(s) => seq![s],
        _ => Seq::empty(),
    });
    if b.len() == 0 {
        assert(a + b =~= a);
        assert(ints(a + b) =~= ints(a) + ints(b));
        assert(strings(a + b) =~= strings(a) + strings(b));
    } else {
        lists_are_read_in_order(a, b.drop_last(), item);
        assert((a + b).drop_last() =~= a + b.drop_last());
        assert(ints(a + b) =~= ints(a) + ints(b));
        assert(strings(a + b) =~= strings(a) + strings(b));
    }
}

/// Whether a format is the first of those wanted that is available; none is where none is.
pub open spec fn chosen(
    format: Option<Seq<char>>,
    wanted: Seq<Seq<char>>,
    available: Seq<Seq<char>>,
) -> bool {
    match format {
        Some(name) => exists|i: int|
            {
                &&& 0 <= i < wanted.len()
                &&& #[trigger] wanted[i] == name
                &&& available.contains(name)
                &&& forall|j: int| 0 <= j < i ==> !available.contains(#[trigger] wanted[j])
            },
        None => forall|j: int| 0 <= j < wanted.len() ==> !available.contains(#[trigger] wanted[j]),
    }
}

proof fn lemma_chosen(wanted: Seq<Seq<char>>, available: Seq<Seq<char>>)
    ensures
        chosen(first_available(wanted, available), wanted, available),
    decreases wanted.len(),
{
    if wanted.len() > 0 && !available.contains(wanted[0]) {
        let rest = wanted.drop_first();
        lemma_chosen(rest, available);
        match first_available(wanted, available) {
            Some(name) => {
                let i = choose|i: int|
                    {
                        &&& 0 <= i < rest.len()
                        &&& #[trigger] rest[i] == name
                        &&& available.contains(name)
                        &&& forall|j: int| 0 <= j < i ==> !available.contains(#[trigger] rest[j])
                    };
                assert(wanted[i + 1] == name);
                assert forall|j: int| 0 <= j < i + 1 implies !available.contains(
                    #[trigger] wanted[j],
                ) by {
                    if j > 0 {
                        assert(rest[j - 1] == wanted[j]);
                    }
                }
            },
            None => {
                assert forall|j: int| 0 <= j < wanted.len() implies !available.contains(
                    #[trigger] wanted[j],
                ) by {
                    if j > 0 {
                        assert(rest[j - 1] == wanted[j]);
                    }
                }
            },
        }
    } else if wanted.len() > 0 {
        assert(wanted[0] == wanted[0]);
    }
}

/// The format to download is the one that stands first among those wanted, of those that the book
/// has; there is none only where the book has none of them.
pub proof fn the_format_goes_by_preference(
    wanted: &Vec<String>,
    available: &Vec<String>,
    entry: Entry,
    format: Option<String>,
    book: Book,
)
    requires
        call_ensures(choose_format, (wanted, available), format),
        call_ensures(to_book, (entry, wanted, available), book),
    ensures
        chosen(opt_text(format), texts(wanted@), texts(available@)),
        chosen(opt_text(book.format), texts(wanted@), texts(available@)),
        book.id == entry.id,
        book.title@ == entry.title@,
        book.author@ == entry.author@,
{
    lemma_chosen(texts(wanted@), texts(available@));
}

/// The order in which the server names the formats of a book makes no difference.
pub proof fn the_order_of_the_server_does_not_matter(
    wanted: &Vec<String>,
    one: &Vec<String>,
    other: &Vec<String>,
    a: Option<String>,
    b: Option<String>,
)
    requires
        call_ensures(choose_format, (wanted, one), a),
        call_ensures(choose_format, (wanted, other), b),
        forall|name: Seq<char>| #[trigger]
            texts(one@).contains(name) <==> texts(other@).contains(name),
    ensures
        opt_text(a) == opt_text(b),
{
    lemma_same_choice(texts(wanted@), texts(one@), texts(other@));
}

proof fn lemma_same_choice(
    wanted: Seq<Seq<char>>,
    one: Seq<Seq<char>>,
    other: Seq<Seq<char>>,
)
    requires
        forall|name: Seq<char>| #[trigger] one.contains(name) <==> other.contains(name),
    ensures
        first_available(wanted, one) == first_available(wanted, other),
    decreases wanted.len(),
{
    if wanted.len() > 0 {
        assert(one.contains(wanted[0]) <==> other.contains(wanted[0]));
        lemma_same_choice(wanted.drop_first(), one, other);
    }
}

/// The text under a key; empty where there is none.
pub open spec fn text_at(meta: JsonTree, key: Seq<char>) -> Seq<char> {
    match field(meta, key) {
        Some(JsonTree::Text(text)) => text,
        _ => Seq::empty(),
    }
}

/// The texts of the list under a key; none where there is no list.
pub open spec fn texts_at(meta: JsonTree, key: Seq<char>) -> Seq<Seq<char>> {
    match field(meta, key) {
        Some(JsonTree::List(items)) => strings(items),
        _ => Seq::empty(),
    }
}

/// Whether nothing is known of a book: its entry is null, or its key says no id.
pub open spec fn skipped(key: Seq<char>, meta: JsonTree) -> bool {
    meta is Null || forall|n: int| i64::MIN <= n <= i64::MAX ==> !#[trigger] says_signed(key, n)
}

proof fn lemma_says_signed(key: Seq<char>, n: int)
    requires
        i64::MIN <= n <= i64::MAX,
    ensures
        parsed_i64(key) == Some(n as i64) <==> says_signed(key, n),
{
    if key.len() > 0 && (key[0] == '+' || key[0] == '-') {
        assert(!is_digit(key[0]));
        assert(!all_digits(key));
    }
}

/// An entry of a reply tells the id by its key, and title, authors and formats by its fields; an
/// entry that is null or has another key tells nothing.
pub proof fn an_entry_tells_its_book(key: &str, meta: &Json, r: Option<Entry>)
    requires
        call_ensures(read_entry, (key, meta), r),
    ensures
        r is None <==> skipped(key@, meta.tree()),
        r matches Some(entry) ==> {
            &&& says_signed(key@, entry.id as int)
            &&& entry.title@ == text_at(meta.tree(), "title"@)
            &&& entry.author@ == joined(texts_at(meta.tree(), "authors"@), ", "@)
            &&& texts(entry.formats@) == texts_at(meta.tree(), "formats"@)
        },
{
    lemma_entry(key@, meta.tree());
}

proof fn lemma_entry(key: Seq<char>, meta: JsonTree)
    ensures
        entry_of(key, meta) is None <==> skipped(key, meta),
        entry_of(key, meta) matches Some(entry) ==> says_signed(key, entry.id as int),
{
    if let Some(id) = parsed_i64(key) {
        lemma_says_signed(key, id as int);
    }
    if !(meta is Null) && parsed_i64(key) is None {
        assert forall|n: int| i64::MIN <= n <= i64::MAX implies !#[trigger] says_signed(
            key,
            n,
        ) by {
            lemma_says_signed(key, n);
        }
    }
}

/// Whether a book is what an entry tells, with the format to download chosen by preference among the
/// formats of the entry in capitals.
pub open spec fn made_of(
    book: BookView,
    key: Seq<char>,
    meta: JsonTree,
    wanted: Seq<Seq<char>>,
) -> bool {
    &&& !(meta is Null)
    &&& says_signed(key, book.id as int)
    &&& book.title == text_at(meta, "title"@)
    &&& book.author == joined(texts_at(meta, "authors"@), ", "@)
    &&& chosen(book.format, wanted, uppercased(texts_at(meta, "formats"@)))
}

/// Whether books are read out of the entries at the given places, one of each and in their order,
/// and out of all that tell anything.
pub open spec fn read_at(
    books: Seq<BookView>,
    entries: Seq<(Seq<char>, JsonTree)>,
    wanted: Seq<Seq<char>>,
    places: Seq<int>,
) -> bool {
    &&& places.len() == books.len()
    &&& forall|k: int| 0 <= k < places.len() ==> 0 <= #[trigger] places[k] < entries.len()
    &&& forall|k: int, l: int| 0 <= k < l < places.len() ==> #[trigger] places[k] < #[trigger] places[l]
    &&& forall|k: int|
        0 <= k < places.len() ==> made_of(
            #[trigger] books[k],
            entries[places[k]].0,
            entries[places[k]].1,
            wanted,
        )
    &&& forall|i: int|
        0 <= i < entries.len() && !places.contains(i) ==> skipped(
            #[trigger] entries[i].0,
            entries[i].1,
        )
}

spec fn places_of(entries: Seq<(Seq<char>, JsonTree)>) -> Seq<int>
    decreases entries.len(),
{
    if entries.len() == 0 {
        Seq::empty()
    } else if entry_of(entries.last().0, entries.last().1) is Some {
        places_of(entries.drop_last()).push(entries.len() - 1)
    } else {
        places_of(entries.drop_last())
    }
}

proof fn lemma_read_at(entries: Seq<(Seq<char>, JsonTree)>, wanted: Seq<Seq<char>>)
    ensures
        read_at(books_in(entries, wanted), entries, wanted, places_of(entries)),
    decreases entries.len(),
{
    if entries.len() > 0 {
        let front = entries.drop_last();
        lemma_read_at(front, wanted);
        let (key, meta) = entries.last();
        lemma_entry(key, meta);
        let before = books_in(front, wanted);
        let books = books_in(entries, wanted);
        let old_places = places_of(front);
        let places = places_of(entries);
        if let Some(entry) = entry_of(key, meta) {
            lemma_chosen(wanted, uppercased(entry.formats));
        }
        assert forall|k: int| 0 <= k < places.len() implies made_of(
            #[trigger] books[k],
            entries[places[k]].0,
            entries[places[k]].1,
            wanted,
        ) && 0 <= places[k] < entries.len() by {
            if k < old_places.len() {
                assert(books[k] == before[k]);
                assert(places[k] == old_places[k]);
                assert(front[old_places[k]] == entries[places[k]]);
            }
        }
        assert forall|k: int, l: int| 0 <= k < l < places.len() implies #[trigger] places[k]
            < #[trigger] places[l] by {
            assert(places[k] == old_places[k]);
            if l < old_places.len() {
                assert(places[l] == old_places[l]);
            }
        }
        assert forall|i: int| 0 <= i < entries.len() && !places.contains(i) implies skipped(
            #[trigger] entries[i].0,
            entries[i].1,
        ) by {
            if i < front.len() {
                assert(front[i] == entries[i]);
                if old_places.contains(i) {
                    let k = choose|k: int| 0 <= k < old_places.len() && old_places[k] == i;
                    assert(places[k] == i);
                }
            } else if entry_of(key, meta) is Some {
                assert(places[places.len() - 1] == i);
            }
        }
    }
}

/// Whether books are those that the entries tell, in their order.
pub open spec fn reads(
    books: Seq<BookView>,
    entries: Seq<(Seq<char>, JsonTree)>,
    wanted: Seq<Seq<char>>,
) -> bool {
    exists|places: Seq<int>| read_at(books, entries, wanted, places)
}

/// A reply gives the books that its entries tell, in their order and each in the format preferred;
/// it must be an object.
pub proof fn a_reply_gives_the_books_it_tells(
    doc: &Json,
    wanted: &Vec<String>,
    r: Result<Vec<Book>, Error>,
)
    requires
        call_ensures(read_books, (doc, wanted), r),
    ensures
        match doc.tree() {
            JsonTree::Fields(entries) => r matches Ok(books) && reads(
                book_views(books@),
                entries,
                texts(wanted@),
            ),
            _ => r matches Err(Error::NotAnObject),
        },
{
    if let JsonTree::Fields(entries) = doc.tree() {
        lemma_read_at(entries, texts(wanted@));
    }
}

/// Whether a list holds the books in the order of the ids: of each id that has any the last book,
/// once, where the id stands first.
pub open spec fn in_order(list: Seq<BookView>, ids: Seq<i64>, books: Seq<BookView>) -> bool {
    &&& forall|k: int|
        0 <= k < list.len() ==> ids.contains((#[trigger] list[k]).id) && is_last(list[k], books)
    &&& forall|k: int, l: int, i: int|
        0 <= k < l < list.len() && 0 <= i < ids.len() && #[trigger] ids[i] == (#[trigger] list[l]).id
            ==> stands_before((#[trigger] list[k]).id, ids, i)
    &&& forall|i: int, j: int|
        0 <= i < ids.len() && 0 <= j < books.len() && #[trigger] ids[i] == (#[trigger] books[j]).id
            ==> exists|k: int| 0 <= k < list.len() && (#[trigger] list[k]).id == ids[i]
}

/// Whether a book is the last of its id.
pub open spec fn is_last(book: BookView, books: Seq<BookView>) -> bool {
    exists|j: int|
        {
            &&& 0 <= j < books.len()
            &&& #[trigger] books[j] == book
            &&& forall|m: int| j < m < books.len() ==> (#[trigger] books[m]).id != book.id
        }
}

/// Whether an id stands before the place `i`, and not at it.
pub open spec fn stands_before(id: i64, ids: Seq<i64>, i: int) -> bool {
    ids[i] != id && exists|j: int| 0 <= j < i && #[trigger] ids[j] == id
}

proof fn lemma_is_last(books: Seq<BookView>, id: i64)
    ensures
        last_with(books, id) matches Some(book) ==> book.id == id && is_last(book, books),
    decreases books.len(),
{
    if books.len() > 0 {
        let front = books.drop_last();
        lemma_is_last(front, id);
        if books.last().id == id {
            assert(books[books.len() - 1] == books.last());
        } else if let Some(book) = last_with(books, id) {
            let j = choose|j: int|
                {
                    &&& 0 <= j < front.len()
                    &&& #[trigger] front[j] == book
                    &&& forall|m: int| j < m < front.len() ==> (#[trigger] front[m]).id != book.id
                };
            assert(books[j] == book);
            assert forall|m: int| j < m < books.len() implies (#[trigger] books[m]).id != book.id by {
                if m < front.len() {
                    assert(front[m] == books[m]);
                }
            }
        }
    }
}

proof fn lemma_ordered_last(ids: Seq<i64>, books: Seq<BookView>)
    ensures
        forall|k: int|
            0 <= k < ordered(ids, books).len() ==> is_last(#[trigger] ordered(ids, books)[k], books),
    decreases ids.len(),
{
    if ids.len() > 0 {
        let all = ordered(ids, books);
        let before = ordered(ids.drop_last(), books);
        lemma_ordered_last(ids.drop_last(), books);
        lemma_is_last(books, ids.last());
        assert forall|k: int| 0 <= k < all.len() implies is_last(#[trigger] all[k], books) by {
            if k < before.len() {
                assert(all[k] == before[k]);
            }
        }
    }
}

/// The books put into the order of the ids.
pub proof fn lemma_in_order(ids: Seq<i64>, books: Seq<BookView>)
    ensures
        in_order(ordered(ids, books), ids, books),
{
    let list = ordered(ids, books);
    the_list_has_the_books_found(ids, books);
    lemma_ordered_last(ids, books);
    assert forall|k: int, l: int, i: int|
        0 <= k < l < list.len() && 0 <= i < ids.len() && #[trigger] ids[i] == (#[trigger] list[l]).id
            implies stands_before((#[trigger] list[k]).id, ids, i) by {
        the_list_keeps_the_search_order(ids, books, k, l);
        lemma_first_place(ids, i);
        assert(ids.contains(list[k].id));
        let m = choose|m: int| 0 <= m < ids.len() && ids[m] == list[k].id;
        lemma_first_place(ids, m);
        let j = first_place(ids, list[k].id);
        assert(ids[j] == list[k].id && j < i);
    }
}

/// The list comes in the order of the search, whatever the order of the replies.
pub proof fn the_list_comes_in_the_order_of_the_search(
    ids: &Vec<i64>,
    books: Vec<Book>,
    r: Vec<Book>,
)
    requires
        call_ensures(order_books, (ids, books), r),
    ensures
        in_order(book_views(r@), ids@, book_views(books@)),
{
    lemma_in_order(ids@, book_views(books@));
}

/// Fetching the list begins with a search for as many books as the settings say.
pub proof fn a_list_begins_with_a_search(client: &Client, r: ListStep)
    requires
        call_ensures(Client::list, (client,), r),
    ensures
        r matches ListStep::Fetch(listing, get) && listing is Search && asks_for_search(
            get.url@,
            client.base@,
            opt_text(client.library),
            client.limit as int,
        ) && same_text(get.auth, client.auth),
{
    lemma_search_url(client@);
}

/// The ids of the batch that begins at `from`: fifty, or those that are left.
pub open spec fn fifty_from(ids: Seq<i64>, from: int) -> Seq<i64> {
    ids.subrange(
        from,
        if from + 50 < ids.len() {
            from + 50
        } else {
            ids.len() as int
        },
    )
}

/// Whether a step asks for the next batch, with nothing lost of what there is.
pub open spec fn asks_for_batch(
    step: ListStepView,
    client: ClientView,
    ids: Seq<i64>,
    from: int,
    books: Seq<BookView>,
) -> bool {
    step matches ListStepView::Fetch(next, get) && {
        &&& next == (ListingView::Books { ids, done: from as nat, books })
        &&& asks_for_books(get.url, client.base, client.library, fifty_from(ids, from))
        &&& get.auth == client.auth
    }
}

/// Whether a step is the right one once a document has come in. A search tells the library and the
/// ids; then each document tells books, and the next fifty ids are asked for, until none is left.
pub open spec fn right_step(
    before: ClientView,
    listing: ListingView,
    doc: JsonTree,
    after: ClientView,
    step: ListStepView,
) -> bool {
    match listing {
        ListingView::Search => {
            &&& after.base == before.base
            &&& after.auth == before.auth
            &&& after.formats == before.formats
            &&& after.limit == before.limit
            &&& after.library == match field(doc, "library_id"@) {
                Some(JsonTree::Text(library)) => Some(library),
                _ => before.library,
            }
            &&& match field(doc, "book_ids"@) {
                Some(JsonTree::List(items)) => if ints(items).len() == 0 {
                    step == ListStepView::Done(Seq::empty())
                } else {
                    asks_for_batch(step, after, ints(items), 0, Seq::empty())
                },
                _ => step == ListStepView::Failed(ErrorView::NoBookIds),
            }
        },
        ListingView::Books { ids, done, books } => {
            &&& after == before
            &&& match doc {
                JsonTree::Fields(entries) => exists|more: Seq<BookView>|
                    {
                        &&& #[trigger] reads(more, entries, before.formats)
                        &&& if done + 50 < ids.len() {
                            asks_for_batch(step, after, ids, done as int + 50, books + more)
                        } else {
                            step matches ListStepView::Done(list) && in_order(
                                list,
                                ids,
                                books + more,
                            )
                        }
                    },
                _ => step == ListStepView::Failed(ErrorView::NotAnObject),
            }
        },
    }
}

/// What fetching the list does once a document has come in.
pub proof fn lemma_right_step(client: ClientView, listing: ListingView, doc: JsonTree)
    ensures
        ({
            let (after, step) = list_after(client, listing, doc);
            right_step(client, listing, doc, after, step)
        }),
{
    let (after, step) = list_after(client, listing, doc);
    match listing {
        ListingView::Search => {
            if let Some(JsonTree::List(items)) = field(doc, "book_ids"@) {
                let ids = ints(items);
                if ids.len() > 0 {
                    lemma_books_url(after, batch(ids, 0));
                    assert(batch(ids, 0) == fifty_from(ids, 0));
                }
            }
        },
        ListingView::Books { ids, done, books } => {
            if let JsonTree::Fields(entries) = doc {
                let more = books_in(entries, client.formats);
                lemma_read_at(entries, client.formats);
                assert(reads(more, entries, client.formats));
                if done + 50 < ids.len() {
                    let from = done + 50int;
                    lemma_books_url(after, batch(ids, from));
                    assert(batch(ids, from) == fifty_from(ids, from));
                } else {
                    lemma_in_order(ids, books + more);
                }
            }
        },
    }
}

/// Fetching the list goes step by step: the ids of the search, then the books of each batch of
/// fifty, asked for with the credentials and in the library that the search told, and at last the
/// books in the order of the search.
pub proof fn the_list_is_fetched_batch_by_batch(
    client: &mut Client,
    listing: Listing,
    doc: &Json,
    r: ListStep,
)
    requires
        call_ensures(Client::list_document, (client, listing, doc), r),
    ensures
        right_step(old(client)@, listing@, doc.tree(), final(client)@, r@),
{
    lemma_right_step(old(client)@, listing@, doc.tree());
}

/// A reply that could not be had, or is no document, is an error that says why and leaves the client
/// as it is; any other goes on with the list.
pub proof fn replies_go_on_with_the_list(
    client: &mut Client,
    listing: Listing,
    reply: Result<Vec<u8>, String>,
    r: ListStep,
)
    requires
        call_ensures(Client::list_reply, (client, listing, reply), r),
    ensures
        match reply {
            Err(e) => {
                &&& r matches ListStep::Failed(Error::Io(why)) && why@ == e@
                &&& final(client)@ == old(client)@
            },
            Ok(bytes) => match json_outcome(bytes@) {
                Err(e) => {
                    &&& r matches ListStep::Failed(Error::Json(why)) && why@ == e
                    &&& final(client)@ == old(client)@
                },
                Ok(doc) => right_step(old(client)@, listing@, doc, final(client)@, r@),
            },
        },
{
    if let Ok(bytes) = reply {
        if let Ok(doc) = json_outcome(bytes@) {
            lemma_right_step(old(client)@, listing@, doc);
        }
    }
}

} // verus!
