//! Laws of the requests to the server: each is read back out of its address, part by part, as a
//! server reads it.
use vstd::prelude::*;
use vstd::utf8::encode_utf8;

use crate::calibre::{book_url, books_url, search_url, thumbnail_url, Book, Client, ClientView, Error,
    Get};
use crate::config::Config;
use crate::download::Download;
use crate::encoding::{base64_decoded, base64_text, base64_text_decodes, percent_decoded,
    percent_text, percent_text_decodes};
use crate::laws::texts::{lemma_joined_lists, lemma_percent_chars, lemma_pieces,
    lemma_stripped_behind, plain_in_addresses, says_signed, says_unsigned};
use crate::number::{all_digits, decimal, decimal_reads_back, is_digit, signed_decimal};
use crate::text::{joined, lemma_strip_end, opt_text, pieces, splitting_undoes_joining, texts, Strip};

verus! {

/// Whether two optional texts are the same.
pub open spec fn same_text(a: Option<String>, b: Option<String>) -> bool {
    match (a, b) {
        (Some(one), Some(other)) => one@ == other@,
        (None, None) => true,
        _ => false,
    }
}

/// The address after the base that it begins with.
pub open spec fn after_base(url: Seq<char>, base: Seq<char>) -> Seq<char> {
    url.skip(base.len() as int)
}

/// The parts of the path of an address, after its base.
pub open spec fn path_parts(url: Seq<char>, base: Seq<char>) -> Seq<Seq<char>> {
    pieces(pieces(after_base(url, base), '?')[0], '/')
}

/// The parts of the query of an address, after its base.
pub open spec fn query_parts(url: Seq<char>, base: Seq<char>) -> Seq<Seq<char>> {
    pieces(pieces(after_base(url, base), '?')[1], '&')
}

/// Whether an address begins with the base and has a path and a query.
pub open spec fn has_query(url: Seq<char>, base: Seq<char>) -> bool {
    &&& base.len() <= url.len()
    &&& url.take(base.len() as int) == base
    &&& pieces(after_base(url, base), '?').len() == 2
}

/// Whether a character may stand in a part of an address.
spec fn safe(c: char) -> bool {
    plain_in_addresses(c) || c == '%'
}

/// Whether a text is made of what may stand in a part of an address, and of one character more.
spec fn safe_but(s: Seq<char>, extra: char) -> bool {
    forall|i: int| 0 <= i < s.len() ==> safe(#[trigger] s[i]) || s[i] == extra
}

proof fn lemma_safe_decimal(n: nat)
    ensures
        safe_but(decimal(n), '%'),
        all_digits(decimal(n)),
        !decimal(n).contains('x'),
{
    decimal_reads_back(n);
    assert forall|i: int| 0 <= i < decimal(n).len() implies safe(#[trigger] decimal(n)[i]) by {
        assert(is_digit(decimal(n)[i]));
    }
    if decimal(n).contains('x') {
        let i = choose|i: int| 0 <= i < decimal(n).len() && decimal(n)[i] == 'x';
        assert(is_digit(decimal(n)[i]));
    }
}

proof fn lemma_safe_signed(n: int)
    ensures
        safe_but(signed_decimal(n), '%'),
        says_signed(signed_decimal(n), n),
{
    if n < 0 {
        lemma_safe_decimal((-n) as nat);
        decimal_reads_back((-n) as nat);
        let s = signed_decimal(n);
        assert(s.drop_first() =~= decimal((-n) as nat));
        assert forall|i: int| 0 <= i < s.len() implies safe(#[trigger] s[i]) by {
            if i > 0 {
                assert(s[i] == decimal((-n) as nat)[i - 1]);
            }
        }
    } else {
        lemma_safe_decimal(n as nat);
        decimal_reads_back(n as nat);
    }
}

proof fn lemma_safe_percent(bytes: Seq<u8>)
    ensures
        safe_but(percent_text(bytes), '%'),
        percent_decoded(percent_text(bytes)) == bytes,
{
    lemma_percent_chars(bytes);
    percent_text_decodes(bytes);
}

proof fn lemma_two(a: Seq<char>, b: Seq<char>, at: char)
    requires
        !a.contains(at),
        !b.contains(at),
    ensures
        pieces(a + seq![at] + b, at) == seq![a, b],
{
    let parts = seq![a, b];
    reveal_with_fuel(joined, 3);
    assert(parts.drop_last() =~= seq![a]);
    splitting_undoes_joining(parts, at);
}

/// The parts of the path `/one/two/..`, whose first part is empty.
proof fn lemma_path(parts: Seq<Seq<char>>, path: Seq<char>)
    requires
        parts.len() > 0,
        path == joined(parts, seq!['/']),
        forall|i: int| 0 <= i < parts.len() ==> safe_but(#[trigger] parts[i], '%'),
    ensures
        pieces(path, '/') == parts,
{
    assert forall|i: int| 0 <= i < parts.len() implies !(#[trigger] parts[i]).contains('/') by {
        assert(safe_but(parts[i], '%'));
    }
    splitting_undoes_joining(parts, '/');
}

/// Whether an address is that of a library, or of all, in a part of the server: `ajax` and its name.
pub open spec fn in_library(
    path: Seq<Seq<char>>,
    name: Seq<char>,
    library: Option<Seq<char>>,
) -> bool {
    &&& path.len() == if library is Some {
        4int
    } else {
        3int
    }
    &&& path[0].len() == 0
    &&& path[1] == "ajax"@
    &&& path[2] == name
    &&& library matches Some(text) ==> percent_decoded(path[3]) == encode_utf8(text)
}

/// Whether an address asks for so many books, those added last first.
pub open spec fn asks_for_search(
    url: Seq<char>,
    base: Seq<char>,
    library: Option<Seq<char>>,
    limit: int,
) -> bool {
    let asked = query_parts(url, base);
    &&& has_query(url, base)
    &&& in_library(path_parts(url, base), "search"@, library)
    &&& asked.len() == 3
    &&& asked[0].take(4) == "num="@
    &&& says_unsigned(asked[0].skip(4), limit)
    &&& asked[1] == "sort=timestamp"@
    &&& asked[2] == "sort_order=desc"@
}

/// The address of a search, read back.
pub proof fn lemma_search_url(client: ClientView)
    ensures
        asks_for_search(search_url(client), client.base, client.library, client.limit as int),
{
    let base = client.base;
    let url = search_url(client);
    let num = decimal(client.limit as nat);
    lemma_safe_decimal(client.limit as nat);
    decimal_reads_back(client.limit as nat);
    reveal_strlit("/ajax/search/");
    reveal_strlit("/ajax/search");
    reveal_strlit("?num=");
    reveal_strlit("num=");
    reveal_strlit("&sort=timestamp&sort_order=desc");
    reveal_strlit("sort=timestamp");
    reveal_strlit("sort_order=desc");
    reveal_strlit("ajax");
    reveal_strlit("search");
    let asked = seq!["num="@ + num, "sort=timestamp"@, "sort_order=desc"@];
    let query = "num="@ + num + "&sort=timestamp&sort_order=desc"@;
    lemma_query3(asked[0], asked[1], asked[2], query);
    assert(asked[0].take(4) =~= "num="@);
    assert(asked[0].skip(4) =~= num);
    let parts = match client.library {
        Some(library) => {
            lemma_safe_percent(encode_utf8(library));
            seq![Seq::empty(), "ajax"@, "search"@, percent_text(encode_utf8(library))]
        },
        None => seq![Seq::empty(), "ajax"@, "search"@],
    };
    let path = joined(parts, seq!['/']);
    lemma_parts(parts);
    lemma_path(parts, path);
    lemma_two(path, query, '?');
    assert(after_base(url, base) =~= path + seq!['?'] + query);
    assert(url.take(base.len() as int) =~= base);
}

/// A search asks the server for as many books as the settings say, those added last first, in the
/// library of the client if it knows one, and with its credentials.
pub proof fn a_search_asks_for_the_limit(client: &Client, r: Get)
    requires
        call_ensures(Client::search, (client,), r),
    ensures
        asks_for_search(r.url@, client.base@, opt_text(client.library), client.limit as int),
        same_text(r.auth, client.auth),
{
    lemma_search_url(client@);
}

/// Clients with different limits make different searches.
pub proof fn other_limits_make_other_searches(a: &Client, b: &Client, one: Get, other: Get)
    requires
        call_ensures(Client::search, (a,), one),
        call_ensures(Client::search, (b,), other),
        a.base@ == b.base@,
        a.limit != b.limit,
    ensures
        one.url@ != other.url@,
{
    lemma_search_url(a@);
    lemma_search_url(b@);
    if one.url@ == other.url@ {
        let text = query_parts(one.url@, a.base@)[0].skip(4);
        assert(says_unsigned(text, a.limit as int) && says_unsigned(text, b.limit as int));
        if text.len() > 0 && text[0] == '+' {
            assert(!is_digit(text[0]));
            assert(!all_digits(text));
        }
    }
}

/// A path of three, four or five parts, written out.
proof fn lemma_parts(parts: Seq<Seq<char>>)
    requires
        3 <= parts.len() <= 5,
        parts[0].len() == 0,
        forall|i: int| 0 <= i < parts.len() ==> safe_but(#[trigger] parts[i], '%'),
    ensures
        ({
            let short = seq!['/'] + parts[1] + seq!['/'] + parts[2];
            joined(parts, seq!['/']) == if parts.len() == 3 {
                short
            } else if parts.len() == 4 {
                short + seq!['/'] + parts[3]
            } else {
                short + seq!['/'] + parts[3] + seq!['/'] + parts[4]
            }
        }),
        safe_but(joined(parts, seq!['/']), '/'),
{
    reveal_with_fuel(joined, 6);
    let slash = seq!['/'];
    assert(parts[0] =~= Seq::empty());
    let p1 = parts.take(1);
    let p2 = parts.take(2);
    let p3 = parts.take(3);
    assert(p2.drop_last() =~= p1);
    assert(p3.drop_last() =~= p2);
    assert(joined(p2, slash) =~= slash + parts[1]);
    assert(joined(p3, slash) =~= slash + parts[1] + slash + parts[2]);
    assert(safe_but(parts[1], '%') && safe_but(parts[2], '%'));
    if parts.len() == 3 {
        assert(parts =~= p3);
    } else {
        let p4 = parts.take(4);
        assert(p4.drop_last() =~= p3);
        assert(safe_but(parts[3], '%'));
        if parts.len() == 4 {
            assert(parts =~= p4);
        } else {
            assert(parts.drop_last() =~= p4);
            assert(safe_but(parts[4], '%'));
        }
    }
}

proof fn lemma_query3(a: Seq<char>, b: Seq<char>, c: Seq<char>, query: Seq<char>)
    requires
        safe_but(a, '='),
        safe_but(b, '='),
        safe_but(c, '='),
        query =~= a + seq!['&'] + b + seq!['&'] + c,
    ensures
        pieces(query, '&') == seq![a, b, c],
        !query.contains('?'),
{
    let parts = seq![a, b, c];
    reveal_with_fuel(joined, 4);
    assert(parts.drop_last() =~= seq![a, b]);
    assert(seq![a, b].drop_last() =~= seq![a]);
    assert(query =~= joined(parts, seq!['&']));
    splitting_undoes_joining(parts, '&');
}

/// Numbers with commas between them.
proof fn lemma_ids(ids: Seq<i64>, list: Seq<Seq<char>>, text: Seq<char>)
    requires
        list == Seq::new(ids.len(), |i: int| signed_decimal(ids[i] as int)),
        text == joined(list, ","@),
    ensures
        ids.len() > 0 ==> pieces(text, ',') == list,
        ids.len() == 0 ==> text.len() == 0,
        safe_but(text, ','),
        forall|i: int| 0 <= i < ids.len() ==> says_signed(#[trigger] list[i], ids[i] as int),
    decreases ids.len(),
{
    reveal_strlit(",");
    assert(","@ =~= seq![',']);
    assert forall|i: int| 0 <= i < ids.len() implies says_signed(#[trigger] list[i], ids[i] as int)
        && safe_but(list[i], '%') by {
        lemma_safe_signed(ids[i] as int);
    }
    if ids.len() > 0 {
        assert forall|i: int| 0 <= i < list.len() implies !(#[trigger] list[i]).contains(',') by {
            assert(says_signed(list[i], ids[i] as int));
            assert(safe_but(list[i], '%'));
        }
        splitting_undoes_joining(list, ',');
        let front = ids.drop_last();
        assert(list.drop_last() =~= Seq::new(front.len(), |i: int| signed_decimal(front[i] as int)));
        lemma_ids(front, list.drop_last(), joined(list.drop_last(), ","@));
        assert(says_signed(list[list.len() - 1], ids[list.len() - 1] as int));
        assert(safe_but(list[list.len() - 1], '%'));
    }
}

/// Whether an address asks for what the server knows of exactly these books, in their order.
pub open spec fn asks_for_books(
    url: Seq<char>,
    base: Seq<char>,
    library: Option<Seq<char>>,
    ids: Seq<i64>,
) -> bool {
    let asked = query_parts(url, base);
    let told = pieces(asked[0].skip(4), ',');
    &&& has_query(url, base)
    &&& in_library(path_parts(url, base), "books"@, library)
    &&& asked.len() == 1
    &&& asked[0].take(4) == "ids="@
    &&& ids.len() == 0 ==> asked[0].len() == 4
    &&& ids.len() > 0 ==> told.len() == ids.len()
    &&& ids.len() > 0 ==> forall|i: int|
        0 <= i < ids.len() ==> says_signed(#[trigger] told[i], ids[i] as int)
}

/// The address of what the server knows of some books, read back.
pub proof fn lemma_books_url(client: ClientView, ids: Seq<i64>)
    ensures
        asks_for_books(books_url(client, ids), client.base, client.library, ids),
{
    let base = client.base;
    let url = books_url(client, ids);
    let list = Seq::new(ids.len(), |i: int| signed_decimal(ids[i] as int));
    let text = joined(list, ","@);
    lemma_ids(ids, list, text);
    reveal_strlit("/ajax/books/");
    reveal_strlit("/ajax/books");
    reveal_strlit("?ids=");
    reveal_strlit("ids=");
    reveal_strlit("ajax");
    reveal_strlit("books");
    let query = "ids="@ + text;
    lemma_query1(query, '=', ',');
    assert(query.take(4) =~= "ids="@);
    assert(query.skip(4) =~= text);
    let parts = match client.library {
        Some(library) => {
            lemma_safe_percent(encode_utf8(library));
            seq![Seq::empty(), "ajax"@, "books"@, percent_text(encode_utf8(library))]
        },
        None => seq![Seq::empty(), "ajax"@, "books"@],
    };
    let path = joined(parts, seq!['/']);
    lemma_parts(parts);
    lemma_path(parts, path);
    lemma_two(path, query, '?');
    assert(after_base(url, base) =~= path + seq!['?'] + query);
    assert(url.take(base.len() as int) =~= base);
}

/// A request for what the server knows of some books names exactly these, in their order, in the
/// library of the client if it knows one, and carries its credentials.
pub proof fn metadata_is_asked_for_the_given_books(client: &Client, ids: &[i64], r: Get)
    requires
        call_ensures(Client::metadata, (client, ids), r),
    ensures
        asks_for_books(r.url@, client.base@, opt_text(client.library), ids@),
        same_text(r.auth, client.auth),
{
    lemma_books_url(client@, ids@);
}

proof fn lemma_query1(query: Seq<char>, one: char, other: char)
    requires
        one != '&' && one != '?',
        other != '&' && other != '?',
        forall|i: int| 0 <= i < query.len() ==> safe(#[trigger] query[i]) || query[i] == one
            || query[i] == other,
    ensures
        pieces(query, '&') == seq![query],
        !query.contains('?'),
{
    let parts = seq![query];
    assert(joined(parts, seq!['&']) == query);
    splitting_undoes_joining(parts, '&');
}

/// Whether an address asks for the cover of a book in the given size.
pub open spec fn asks_for_thumbnail(
    url: Seq<char>,
    base: Seq<char>,
    library: Seq<char>,
    id: i64,
    width: int,
    height: int,
) -> bool {
    let asked = query_parts(url, base);
    let size = pieces(asked[0].skip(3), 'x');
    let path = path_parts(url, base);
    &&& has_query(url, base)
    &&& asked.len() == 1
    &&& asked[0].take(3) == "sz="@
    &&& size.len() == 2
    &&& says_unsigned(size[0], width)
    &&& says_unsigned(size[1], height)
    &&& path.len() == 5
    &&& path[0].len() == 0
    &&& path[1] == "get"@
    &&& path[2] == "thumb"@
    &&& says_signed(path[3], id as int)
    &&& percent_decoded(path[4]) == encode_utf8(library)
}

/// The address of a thumbnail, read back.
pub proof fn lemma_thumbnail_url(
    base: Seq<char>,
    library: Seq<char>,
    id: i64,
    width: u32,
    height: u32,
)
    ensures
        asks_for_thumbnail(
            thumbnail_url(base, library, id, width, height),
            base,
            library,
            id,
            width as int,
            height as int,
        ),
{
    let url = thumbnail_url(base, library, id, width, height);
    let w = decimal(width as nat);
    let h = decimal(height as nat);
    lemma_safe_decimal(width as nat);
    lemma_safe_decimal(height as nat);
    decimal_reads_back(width as nat);
    decimal_reads_back(height as nat);
    lemma_safe_signed(id as int);
    lemma_safe_percent(encode_utf8(library));
    reveal_strlit("/get/thumb/");
    reveal_strlit("/");
    reveal_strlit("?sz=");
    reveal_strlit("sz=");
    reveal_strlit("x");
    reveal_strlit("get");
    reveal_strlit("thumb");
    let query = "sz="@ + w + "x"@ + h;
    lemma_two(w, h, 'x');
    assert(query.take(3) =~= "sz="@);
    assert(query.skip(3) =~= w + seq!['x'] + h);
    lemma_query1(query, '=', '=');
    let parts = seq![
        Seq::empty(),
        "get"@,
        "thumb"@,
        signed_decimal(id as int),
        percent_text(encode_utf8(library)),
    ];
    let path = joined(parts, seq!['/']);
    lemma_parts(parts);
    lemma_path(parts, path);
    lemma_two(path, query, '?');
    assert(after_base(url, base) =~= path + seq!['?'] + query);
    assert(url.take(base.len() as int) =~= base);
}

/// A thumbnail is asked for of the given book, in the given size, in the library of the client and
/// with its credentials; without a library there is none to ask for.
pub proof fn a_thumbnail_is_asked_for_in_its_size(
    client: &Client,
    id: i64,
    width: u32,
    height: u32,
    r: Result<Get, Error>,
)
    requires
        call_ensures(Client::thumbnail, (client, id, width, height), r),
    ensures
        client.library is None ==> r matches Err(Error::NoLibrary),
        client.library matches Some(library) ==> {
            &&& r matches Ok(get)
            &&& asks_for_thumbnail(
                get.url@,
                client.base@,
                library@,
                id,
                width as int,
                height as int,
            )
            &&& same_text(get.auth, client.auth)
        },
{
    if let Some(library) = client.library {
        lemma_thumbnail_url(client.base@, library@, id, width, height);
    }
}

/// Whether an address is that of a book of the given library in the given format.
pub open spec fn is_book_address(
    url: Seq<char>,
    base: Seq<char>,
    library: Seq<char>,
    format: Seq<char>,
    id: i64,
) -> bool {
    let rest = after_base(url, base);
    let parts = pieces(rest, '/');
    let n = parts.len();
    &&& base.len() <= url.len()
    &&& url.take(base.len() as int) == base
    &&& n >= 2
    &&& says_signed(parts[n - 2], id as int)
    &&& percent_decoded(parts[n - 1]) == encode_utf8(library)
    &&& rest == "/get/"@ + format + "/"@ + parts[n - 2] + "/"@ + parts[n - 1]
}

/// A download asks for the book in its format, in the library of the client, and carries exactly
/// the credentials of the client.
pub proof fn a_download_carries_the_credentials(
    client: &Client,
    book: &Book,
    dir: &str,
    extension: &str,
    r: Result<Download, Error>,
)
    requires
        call_ensures(Client::plan, (client, book, dir, extension), r)
            || call_ensures(Client::download, (client, book, dir), r),
    ensures
        r matches Ok(plan) ==> {
            &&& same_text(plan.get.auth, client.auth)
            &&& client.library matches Some(library)
            &&& book.format matches Some(format)
            &&& is_book_address(plan.get.url@, client.base@, library@, format@, book.id)
        },
{
    if let Ok(plan) = r {
        lemma_book_url(client.base@, client.library->0@, book.format->0@, book.id);
    }
}

/// The address of a book, read back.
pub proof fn lemma_book_url(base: Seq<char>, library: Seq<char>, format: Seq<char>, id: i64)
    ensures
        is_book_address(book_url(base, library, format, id), base, library, format, id),
{
    let url = book_url(base, library, format, id);
    let number = signed_decimal(id as int);
    let name = percent_text(encode_utf8(library));
    lemma_safe_signed(id as int);
    lemma_safe_percent(encode_utf8(library));
    reveal_strlit("/get/");
    reveal_strlit("/");
    assert("/"@ =~= seq!['/']);
    let front = "/get/"@ + format;
    let rest = front + "/"@ + number + "/"@ + name;
    assert(after_base(url, base) =~= rest);
    assert(url.take(base.len() as int) =~= base);
    lemma_pieces(front, '/');
    let before = pieces(front, '/');
    let parts = before + seq![number, name];
    lemma_joined_lists(before, seq![number, name], seq!['/']);
    reveal_with_fuel(joined, 3);
    assert(seq![number, name].drop_last() =~= seq![number]);
    assert(joined(parts, seq!['/']) =~= rest);
    assert forall|i: int| 0 <= i < parts.len() implies !(#[trigger] parts[i]).contains('/') by {
        if i < before.len() {
            assert(parts[i] == before[i]);
        }
    }
    splitting_undoes_joining(parts, '/');
}

/// A client talks to the server of the settings, without the slashes at the end of its address, and
/// with its user and password, if there is a user: they decode from the header. It keeps the
/// formats, the limit and the library of the settings.
pub proof fn a_client_is_for_its_settings(cfg: &Config, r: Client)
    requires
        call_ensures(Client::new, (cfg,), r),
    ensures
        r.base@.len() <= cfg.server@.len(),
        r.base@ == cfg.server@.take(r.base@.len() as int),
        r.base@.len() > 0 ==> r.base@.last() != '/',
        forall|i: int| r.base@.len() <= i < cfg.server@.len() ==> #[trigger] cfg.server@[i] == '/',
        r.auth is Some <==> cfg.user is Some,
        cfg.user matches Some(user) ==> {
            &&& r.auth matches Some(header)
            &&& header@.take(6) == "Basic "@
            &&& base64_decoded(header@.skip(6)) == encode_utf8(
                user@ + seq![':'] + match cfg.password {
                    Some(password) => password@,
                    None => Seq::empty(),
                },
            )
        },
        texts(r.formats@) == texts(cfg.formats@),
        r.limit == cfg.limit,
        same_text(r.library, cfg.library),
{
    lemma_strip_end(cfg.server@, Strip::Slash);
    lemma_stripped_behind(cfg.server@, Strip::Slash);
    assert forall|i: int| r.base@.len() <= i < cfg.server@.len() implies #[trigger] cfg.server@[i]
        == '/' by {
        assert(Strip::Slash.strips(cfg.server@[i]));
    }
    assert(r@.limit == r.limit);
    if let Some(user) = cfg.user {
        let header = r.auth->0@;
        reveal_strlit("Basic ");
        reveal_strlit(":");
        assert(":"@ =~= seq![':']);
        let password = match cfg.password {
            Some(password) => password@,
            None => Seq::empty(),
        };
        let pair = user@ + seq![':'] + password;
        base64_text_decodes(encode_utf8(pair));
        assert(header.take(6) =~= "Basic "@);
        assert(header.skip(6) =~= base64_text(encode_utf8(pair)));
    }
}

/// A request is for the given address, with the credentials of the client.
pub proof fn a_request_carries_the_credentials(client: &Client, url: String, r: Get)
    requires
        call_ensures(Client::get, (client, url), r),
    ensures
        r.url@ == url@,
        same_text(r.auth, client.auth),
{
}

/// Errors are told apart by their texts; one that came from elsewhere keeps its text, and one of a
/// document says so in front of it.
pub proof fn errors_tell_what_went_wrong(a: &Error, b: &Error, one: String, other: String)
    requires
        call_ensures(Error::message, (a,), one),
        call_ensures(Error::message, (b,), other),
    ensures
        a matches Error::Io(text) ==> one@ == text@,
        a matches Error::Json(text) ==> {
            &&& one@.len() == 6 + text@.len()
            &&& one@.skip(6) == text@
            &&& one@.take(6) == "json: "@
        },
        !(a is Io) && !(a is Json) && !(b is Io) && !(b is Json) ==> (one@ == other@ <==> a@ == b@),
        a is NoFormat ==> one@.subrange(12, 18) == "format"@,
        a is NoLibrary ==> one@.subrange(0, 10) == "library id"@,
        a is NoBookIds ==> one@.subrange(3, 11) == "book_ids"@,
        a is NotAnObject ==> one@.subrange(28, 41) == "not an object"@,
{
    reveal_strlit("no suitable format for this book");
    reveal_strlit("library id unknown, refresh the list");
    reveal_strlit("no book_ids in the /ajax/search response");
    reveal_strlit("the /ajax/books response is not an object");
    reveal_strlit("json: ");
    if let Error::Json(text) = a {
        assert(one@.skip(6) =~= text@);
        assert(one@.take(6) =~= "json: "@);
    }
    reveal_strlit("format");
    reveal_strlit("library id");
    reveal_strlit("book_ids");
    reveal_strlit("not an object");
    assert("no suitable format for this book"@.subrange(12, 18) =~= "format"@);
    assert("library id unknown, refresh the list"@.subrange(0, 10) =~= "library id"@);
    assert("no book_ids in the /ajax/search response"@.subrange(3, 11) =~= "book_ids"@);
    assert("the /ajax/books response is not an object"@.subrange(28, 41)
        =~= "not an object"@);
    assert("no suitable format for this book"@.len() == 32);
    assert("library id unknown, refresh the list"@.len() == 36);
    assert("no book_ids in the /ajax/search response"@.len() == 40);
    assert("the /ajax/books response is not an object"@.len() == 41);
}

} // verus!
