//! Laws of file names, paths and downloads.
use vstd::prelude::*;

use crate::calibre::{Book, Client, Error};
use crate::config::{edges_cleaned, permitted, sanitize_filename, sanitized, NAME_LIMIT};
use crate::download::{file_stem, Download, DownloadStep};
use crate::laws::texts::{lemma_joined_lists, lemma_pieces, lemma_stripped_before,
    lemma_stripped_behind};
use crate::path::{counting, file_name, join_path, last_name, names_something,
    path_joined, same_path};
use crate::text::{joined, lemma_strip_end, lemma_strip_start, lowercase_of, pieces,
    splitting_undoes_joining, strip_start, white_space, Strip};

verus! {

/// Whether a character cannot stand in a file name of the device.
pub open spec fn unfit(c: char) -> bool {
    ||| c == '/'
    ||| c == '\\'
    ||| c == ':'
    ||| c == '*'
    ||| c == '?'
    ||| c == '"'
    ||| c == '<'
    ||| c == '>'
    ||| c == '|'
    ||| c < ' '
}

/// White space that can stand in a file name.
pub open spec fn blank(c: char) -> bool {
    white_space(c) && !unfit(c)
}

/// Whether `r` is the file name for a text: the text from `a` to `f`, with `_` for what cannot stand
/// in a file name. What is left out are blanks before `a`, dots and blanks from `e` on, and what is
/// over the limit, with the dots and blanks before that. Where nothing is left it is `book`.
pub open spec fn names_file(name: Seq<char>, r: Seq<char>, a: int, e: int, f: int) -> bool {
    &&& 0 <= a <= f <= e <= name.len()
    &&& f <= a + 120
    &&& forall|i: int| 0 <= i < a ==> blank(#[trigger] name[i])
    &&& forall|i: int| e <= i < name.len() ==> name[i] == '.' || blank(#[trigger] name[i])
    &&& forall|i: int| f <= i < e && i < a + 120 ==> name[i] == '.' || blank(#[trigger] name[i])
    &&& a < e ==> !blank(name[a]) && !blank(name[e - 1]) && name[e - 1] != '.'
    &&& if a == f {
        r == "book"@
    } else {
        &&& r.len() == f - a
        &&& forall|i: int|
            0 <= i < r.len() ==> #[trigger] r[i] == if unfit(name[a + i]) {
                '_'
            } else {
                name[a + i]
            }
        &&& !blank(name[f - 1]) && name[f - 1] != '.'
    }
}

/// What sanitizing makes of a text is its file name.
pub proof fn lemma_names_file(name: Seq<char>)
    ensures
        exists|a: int, e: int, f: int| names_file(name, sanitized(name), a, e, f),
{
    let m = name.map_values(|c: char| permitted(c));
    let front = strip_start(m, Strip::Space);
    let cleaned = edges_cleaned(m);
    lemma_strip_start(m, Strip::Space);
    lemma_strip_end(front, Strip::DotOrSpace);
    lemma_stripped_before(m, Strip::Space);
    lemma_stripped_behind(front, Strip::DotOrSpace);
    let a = m.len() - front.len();
    let e = a + cleaned.len();
    assert(forall|i: int| 0 <= i < front.len() ==> #[trigger] front[i] == m[a + i]);
    assert(forall|i: int| 0 <= i < cleaned.len() ==> #[trigger] cleaned[i] == m[a + i]);
    assert forall|i: int| 0 <= i < name.len() implies white_space(m[i]) == blank(
        #[trigger] name[i],
    ) && (m[i] == '.' <==> name[i] == '.') by {}
    assert forall|i: int| 0 <= i < a implies blank(#[trigger] name[i]) by {
        assert(Strip::Space.strips(m[i]));
    }
    assert forall|i: int| e <= i < name.len() implies name[i] == '.' || blank(
        #[trigger] name[i],
    ) by {
        assert(Strip::DotOrSpace.strips(front[i - a]));
    }
    if cleaned.len() > 0 {
        assert(cleaned[0] == front[0]);
        assert(!white_space(m[a]));
        assert(!Strip::DotOrSpace.strips(cleaned.last()));
        assert(cleaned.last() == m[e - 1]);
    }
    let head = cleaned.take(NAME_LIMIT as int);
    let cut = edges_cleaned(head);
    if cleaned.len() > NAME_LIMIT {
        assert(strip_start(head, Strip::Space) == head);
        lemma_strip_end(head, Strip::DotOrSpace);
        lemma_stripped_behind(head, Strip::DotOrSpace);
        let f = a + cut.len();
        assert forall|i: int| f <= i < e && i < a + 120 implies name[i] == '.' || blank(
            #[trigger] name[i],
        ) by {
            assert(Strip::DotOrSpace.strips(head[i - a]));
            assert(head[i - a] == m[i]);
        }
        if cut.len() > 0 {
            assert(cut.last() == m[f - 1]);
            assert forall|i: int| 0 <= i < cut.len() implies #[trigger] cut[i] == m[a + i] by {
                assert(cut[i] == head[i]);
            }
        }
        assert(names_file(name, sanitized(name), a, e, f));
    } else {
        assert(names_file(name, sanitized(name), a, e, e));
    }
}

/// A file name is the text that it is made of, but for what cannot stand in a file name, for blanks
/// and dots at its edges, and for what is over 120 characters.
pub proof fn file_names_are_the_texts_they_are_made_of(name: &str, r: String)
    requires
        call_ensures(sanitize_filename, (name,), r),
    ensures
        exists|a: int, e: int, f: int| names_file(name@, r@, a, e, f),
        0 < r@.len() <= 120,
        forall|i: int| 0 <= i < r@.len() ==> !unfit(#[trigger] r@[i]),
{
    lemma_names_file(name@);
    let (a, e, f) = choose|a: int, e: int, f: int| names_file(name@, r@, a, e, f);
    reveal_strlit("book");
}

/// The text that a book is named by on disk.
pub open spec fn book_label(book: Book) -> Seq<char> {
    let author = if book.author@.len() == 0 {
        "Unknown author"@
    } else {
        book.author@
    };
    let title = if book.title@.len() == 0 {
        "Untitled"@
    } else {
        book.title@
    };
    author + " - "@ + title
}

/// The directory as it stands in front of a name.
pub open spec fn in_front(dir: Seq<char>) -> Seq<char> {
    if dir.len() == 0 || dir.last() == '/' {
        dir
    } else {
        dir + seq!['/']
    }
}

/// Whether the download of a book goes into the directory, to a file named by author and title, by
/// way of a hidden one beside it.
pub open spec fn goes_to(
    plan: Download,
    book: Book,
    dir: Seq<char>,
    extension: Seq<char>,
    stem: Seq<char>,
) -> bool {
    &&& exists|a: int, e: int, f: int| names_file(book_label(book), stem, a, e, f)
    &&& plan.dir@ == dir
    &&& plan.target@ == in_front(dir) + stem + seq!['.'] + extension
    &&& plan.temp@ == in_front(dir) + seq!['.'] + stem + ".part"@
}

/// Where a download goes.
pub proof fn lemma_goes_to(plan: Download, book: Book, dir: Seq<char>, extension: Seq<char>)
    requires
        plan.dir@ == dir,
        plan.target@ == path_joined(dir, file_stem(book.author@, book.title@) + "."@ + extension),
        plan.temp@ == path_joined(dir, "."@ + file_stem(book.author@, book.title@) + ".part"@),
    ensures
        goes_to(plan, book, dir, extension, file_stem(book.author@, book.title@)),
{
    let stem = file_stem(book.author@, book.title@);
    lemma_names_file(book_label(book));
    assert(stem == sanitized(book_label(book)));
    let (a, e, f) = choose|a: int, e: int, f: int| names_file(book_label(book), stem, a, e, f);
    reveal_strlit(".");
    reveal_strlit("book");
    assert("."@ =~= seq!['.']);
    assert(stem.len() > 0 && stem[0] != '/');
    assert((stem + "."@ + extension)[0] == stem[0]);
    assert(("."@ + stem + ".part"@)[0] == '.');
    assert(plan.target@ =~= in_front(dir) + stem + seq!['.'] + extension);
    assert(plan.temp@ =~= in_front(dir) + seq!['.'] + stem + ".part"@);
}

/// A book is saved in the given directory, under its author and its title, with the given
/// extension. What is missing is said: first a format, then a library.
pub proof fn a_book_is_saved_under_its_name(
    client: &Client,
    book: &Book,
    dir: &str,
    extension: &str,
    r: Result<Download, Error>,
)
    requires
        call_ensures(Client::plan, (client, book, dir, extension), r),
    ensures
        book.format is None ==> r matches Err(Error::NoFormat),
        book.format is Some && client.library is None ==> r matches Err(Error::NoLibrary),
        book.format is Some && client.library is Some ==> r is Ok,
        r matches Ok(plan) ==> exists|stem: Seq<char>|
            goes_to(plan, *book, dir@, extension@, stem),
{
    if let Ok(plan) = r {
        lemma_goes_to(plan, *book, dir@, extension@);
    }
}

/// The extension of a saved book is its format in small letters.
pub proof fn the_extension_is_the_format(
    client: &Client,
    book: &Book,
    dir: &str,
    r: Result<Download, Error>,
)
    requires
        call_ensures(Client::download, (client, book, dir), r),
    ensures
        book.format is None ==> r matches Err(Error::NoFormat),
        book.format is Some && client.library is None ==> r matches Err(Error::NoLibrary),
        book.format is Some && client.library is Some ==> r is Ok,
        r matches Ok(plan) ==> book.format matches Some(format) && exists|stem: Seq<char>|
            goes_to(plan, *book, dir@, lowercase_of(format@), stem),
{
    if let Ok(plan) = r {
        lemma_goes_to(plan, *book, dir@, lowercase_of(book.format->0@));
    }
}

/// Whether a look at the file found it.
pub open spec fn is_there(outcome: Result<bool, String>) -> bool {
    match outcome {
        Ok(there) => there,
        Err(_) => false,
    }
}

/// A download makes the directory and looks for the file; where there is none it fetches the book
/// and then renames it. It is done exactly where the directory could be made and the file was there
/// or could be fetched and renamed; otherwise it fails with the error of the step that failed, and
/// what was fetched in part is discarded.
pub proof fn a_download_runs_step_by_step(
    steps: Seq<DownloadStep>,
    outcomes: Seq<Result<bool, String>>,
)
    requires
        outcomes.len() == 4,
        steps.len() == 5,
        steps[0] is MakeDir,
        forall|i: int|
            0 <= i < 4 ==> #[trigger] call_ensures(
                DownloadStep::next,
                (steps[i], outcomes[i]),
                steps[i + 1],
            ),
    ensures
        outcomes[0] matches Err(e) ==> steps[1] matches DownloadStep::Failed(why) && why@ == e@,
        outcomes[0] is Ok ==> steps[1] is Check,
        outcomes[0] is Ok && is_there(outcomes[1]) ==> steps[2] is Done,
        outcomes[0] is Ok && !is_there(outcomes[1]) ==> {
            &&& steps[2] is Fetch
            &&& outcomes[2] matches Err(e) ==> steps[3] is Discard && (steps[4] matches
                DownloadStep::Failed(why) && why@ == e@)
            &&& outcomes[2] is Ok ==> {
                &&& steps[3] is Rename
                &&& outcomes[3] is Ok ==> steps[4] is Done
                &&& outcomes[3] matches Err(e) ==> steps[4] matches DownloadStep::Failed(why)
                    && why@ == e@
            }
        },
        steps[4] is Done <==> outcomes[0] is Ok && (is_there(outcomes[1]) || outcomes[2] is Ok
            && outcomes[3] is Ok),
        steps[4] is Done || steps[4] is Failed,
{
    assert(call_ensures(DownloadStep::next, (steps[0], outcomes[0]), steps[0int + 1]));
    assert(call_ensures(DownloadStep::next, (steps[1], outcomes[1]), steps[1int + 1]));
    assert(call_ensures(DownloadStep::next, (steps[2], outcomes[2]), steps[2int + 1]));
    assert(call_ensures(DownloadStep::next, (steps[3], outcomes[3]), steps[3int + 1]));
}

/// A name goes behind the directory, with one slash between; an absolute name stands alone.
pub proof fn names_go_behind_the_directory(dir: &str, name: &str, r: String)
    requires
        call_ensures(join_path, (dir, name), r),
    ensures
        name@.len() > 0 && name@[0] == '/' ==> r@ == name@,
        !(name@.len() > 0 && name@[0] == '/') ==> r@ == in_front(dir@) + name@,
{
    assert(dir@.push('/') =~= dir@ + seq!['/']);
}

/// Whether a text can be a name within a path.
pub open spec fn plain_name(part: Seq<char>) -> bool {
    part.len() > 0 && !part.contains('/') && part != "."@ && part != ".."@
}

/// The name of a file in a directory is the file name of its path, whatever the directory.
pub proof fn the_file_name_is_the_name_joined(path: &str, r: String, dir: Seq<char>, name: Seq<char>)
    requires
        call_ensures(file_name, (path,), r),
        plain_name(name),
        path@ == in_front(dir) + name,
    ensures
        r@ == name,
{
    let parts = if dir.len() == 0 {
        assert(path@ =~= name);
        seq![name]
    } else {
        let stem = if dir.last() == '/' {
            dir.drop_last()
        } else {
            dir
        };
        lemma_pieces(stem, '/');
        let before = pieces(stem, '/');
        lemma_joined_lists(before, seq![name], seq!['/']);
        assert(joined(seq![name], seq!['/']) == name);
        assert(path@ =~= stem + seq!['/'] + name);
        before + seq![name]
    };
    assert(joined(parts, seq!['/']) == path@);
    assert(parts.last() == name);
    assert forall|i: int| 0 <= i < parts.len() implies !(#[trigger] parts[i]).contains('/') by {}
    splitting_undoes_joining(parts, '/');
}

/// What the file name of a path is: one of its parts, the last that is neither empty nor a dot.
proof fn lemma_last_name(parts: Seq<Seq<char>>)
    ensures
        match last_name(parts) {
            Some(name) => exists|i: int|
                {
                    &&& 0 <= i < parts.len()
                    &&& #[trigger] parts[i] == name
                    &&& names_something(name)
                    &&& forall|j: int| i < j < parts.len() ==> !names_something(#[trigger] parts[j])
                },
            None => forall|j: int| 0 <= j < parts.len() ==> !names_something(#[trigger] parts[j]),
        },
    decreases parts.len(),
{
    if parts.len() > 0 {
        let front = parts.drop_last();
        if names_something(parts.last()) {
            assert(parts[parts.len() - 1] == parts.last());
        } else {
            lemma_last_name(front);
            match last_name(front) {
                Some(name) => {
                    let i = choose|i: int|
                        {
                            &&& 0 <= i < front.len()
                            &&& #[trigger] front[i] == name
                            &&& names_something(name)
                            &&& forall|j: int|
                                i < j < front.len() ==> !names_something(#[trigger] front[j])
                        };
                    assert(parts[i] == name);
                    assert forall|j: int| i < j < parts.len() implies !names_something(
                        #[trigger] parts[j],
                    ) by {
                        if j < front.len() {
                            assert(front[j] == parts[j]);
                        }
                    }
                },
                None => {
                    assert forall|j: int| 0 <= j < parts.len() implies !names_something(
                        #[trigger] parts[j],
                    ) by {
                        if j < front.len() {
                            assert(front[j] == parts[j]);
                        }
                    }
                },
            }
        }
    }
}

/// A file name holds no slash, and is the last part of its path that is neither empty nor a dot; a
/// path that goes up last has none.
pub proof fn the_file_name_comes_last(path: &str, r: String)
    requires
        call_ensures(file_name, (path,), r),
    ensures
        !r@.contains('/'),
        ({
            let parts = pieces(path@, '/');
            let nothing = |part: Seq<char>| part.len() == 0 || part == "."@;
            ||| r@.len() == 0 && forall|j: int|
                0 <= j < parts.len() ==> nothing(#[trigger] parts[j])
            ||| exists|i: int|
                {
                    &&& 0 <= i < parts.len()
                    &&& !nothing(#[trigger] parts[i])
                    &&& forall|j: int| i < j < parts.len() ==> nothing(#[trigger] parts[j])
                    &&& r@ == if parts[i] == ".."@ {
                        Seq::empty()
                    } else {
                        parts[i]
                    }
                }
        }),
{
    let parts = pieces(path@, '/');
    lemma_pieces(path@, '/');
    lemma_last_name(parts);
    match last_name(parts) {
        Some(name) => {
            let i = choose|i: int|
                {
                    &&& 0 <= i < parts.len()
                    &&& #[trigger] parts[i] == name
                    &&& names_something(name)
                    &&& forall|j: int| i < j < parts.len() ==> !names_something(#[trigger] parts[j])
                };
            assert(!parts[i].contains('/'));
            assert forall|j: int| i < j < parts.len() implies (#[trigger] parts[j]).len() == 0
                || parts[j] == "."@ by {
                assert(!names_something(parts[j]));
            }
        },
        None => {
            assert forall|j: int| 0 <= j < parts.len() implies (#[trigger] parts[j]).len() == 0
                || parts[j] == "."@ by {
                assert(!names_something(parts[j]));
            }
        },
    }
}

/// All parts that name something count.
proof fn lemma_counting_names(parts: Seq<Seq<char>>)
    requires
        forall|i: int| 0 <= i < parts.len() ==> names_something(#[trigger] parts[i]),
    ensures
        counting(parts) == parts,
    decreases parts.len(),
{
    if parts.len() > 0 {
        let front = parts.drop_last();
        assert forall|i: int| 0 <= i < front.len() implies names_something(#[trigger] front[i]) by {
            assert(front[i] == parts[i]);
        }
        lemma_counting_names(front);
        assert(names_something(parts[parts.len() - 1]));
        assert(front.push(parts.last()) =~= parts);
    }
}

/// A part that names nothing does not count, unless it is the first.
proof fn lemma_counting_one_more(parts: Seq<Seq<char>>, at: int)
    requires
        0 < at < parts.len(),
        !names_something(parts[at]),
    ensures
        counting(parts) == counting(parts.take(at) + parts.skip(at + 1)),
    decreases parts.len(),
{
    let less = parts.take(at) + parts.skip(at + 1);
    if at == parts.len() - 1 {
        assert(less =~= parts.drop_last());
    } else {
        let front = parts.drop_last();
        lemma_counting_one_more(front, at);
        assert(less.drop_last() =~= front.take(at) + front.skip(at + 1));
        assert(less.last() == parts.last());
        assert(less.len() > 1);
    }
}

/// Whether a text is a part of a path that counts.
pub open spec fn path_part(part: Seq<char>) -> bool {
    part.len() > 0 && !part.contains('/') && part != "."@
}

/// Whether a path is made of the given parts, from the root or not.
pub open spec fn path_of(path: Seq<char>, parts: Seq<Seq<char>>, rooted: bool) -> bool {
    &&& parts.len() > 0
    &&& forall|i: int| 0 <= i < parts.len() ==> path_part(#[trigger] parts[i])
    &&& path == if rooted {
        seq!['/'] + joined(parts, seq!['/'])
    } else {
        joined(parts, seq!['/'])
    }
}

/// Two paths are the same exactly if they have the same parts in the same order, and both start at
/// the root or both do not.
pub proof fn paths_compare_by_their_parts(
    a: &str,
    b: &str,
    r: bool,
    one: Seq<Seq<char>>,
    other: Seq<Seq<char>>,
    from_root: bool,
    also_from_root: bool,
)
    requires
        call_ensures(same_path, (a, b), r),
        path_of(a@, one, from_root),
        path_of(b@, other, also_from_root),
    ensures
        r <==> one == other && from_root == also_from_root,
{
    lemma_path_of(a@, one, from_root);
    lemma_path_of(b@, other, also_from_root);
}

/// A path made of parts: they are what counts of it.
proof fn lemma_path_of(path: Seq<char>, parts: Seq<Seq<char>>, rooted: bool)
    requires
        path_of(path, parts, rooted),
    ensures
        counting(pieces(path, '/')) == parts,
        crate::path::rooted(path) == rooted,
{
    assert forall|i: int| 0 <= i < parts.len() implies !(#[trigger] parts[i]).contains('/')
        && names_something(parts[i]) by {
        assert(path_part(parts[i]));
    }
    lemma_counting_names(parts);
    lemma_first_char(parts, joined(parts, seq!['/']));
    assert(path_part(parts[0]));
    assert(parts[0].contains(parts[0][0]));
    if rooted {
        let all = seq![Seq::<char>::empty()] + parts;
        lemma_joined_lists(seq![Seq::<char>::empty()], parts, seq!['/']);
        assert(joined(seq![Seq::<char>::empty()], seq!['/']) =~= Seq::empty());
        assert(joined(all, seq!['/']) =~= path);
        assert forall|i: int| 0 <= i < all.len() implies !(#[trigger] all[i]).contains('/') by {
            if i > 0 {
                assert(all[i] == parts[i - 1]);
            }
        }
        splitting_undoes_joining(all, '/');
        lemma_counting_behind_root(parts);
    } else {
        splitting_undoes_joining(parts, '/');
    }
}

/// An empty part in front does not count.
proof fn lemma_counting_behind_root(parts: Seq<Seq<char>>)
    requires
        forall|i: int| 0 <= i < parts.len() ==> names_something(#[trigger] parts[i]),
    ensures
        counting(seq![Seq::<char>::empty()] + parts) == parts,
    decreases parts.len(),
{
    let all = seq![Seq::<char>::empty()] + parts;
    if parts.len() == 0 {
        assert(all =~= seq![Seq::<char>::empty()]);
        assert(all.drop_last() =~= Seq::empty());
        assert(all.last().len() == 0);
        assert(counting(all) == counting(all.drop_last()));
        assert(counting(Seq::<Seq<char>>::empty()) =~= parts);
    } else {
        let front = parts.drop_last();
        assert forall|i: int| 0 <= i < front.len() implies names_something(#[trigger] front[i]) by {
            assert(front[i] == parts[i]);
        }
        lemma_counting_behind_root(front);
        assert(all.drop_last() =~= seq![Seq::<char>::empty()] + front);
        assert(names_something(parts[parts.len() - 1]));
        assert(front.push(parts.last()) =~= parts);
    }
}

/// A path stays the same without an empty part or a dot within it or at its end.
pub proof fn idle_parts_do_not_count(a: &str, b: &str, r: bool, at: int)
    requires
        call_ensures(same_path, (a, b), r),
        a@ == b@ || ({
            let parts = pieces(a@, '/');
            &&& 0 < at < parts.len()
            &&& parts[at].len() == 0 || parts[at] == "."@
            &&& parts.len() > 2 || parts[0].len() > 0
            &&& b@ == joined(parts.take(at) + parts.skip(at + 1), seq!['/'])
        }),
    ensures
        r,
{
    let all = pieces(a@, '/');
    lemma_pieces(a@, '/');
    if a@ != b@ {
        let less = all.take(at) + all.skip(at + 1);
        assert forall|i: int| 0 <= i < less.len() implies !(#[trigger] less[i]).contains('/') by {
            if i < at {
                assert(less[i] == all[i]);
            } else {
                assert(less[i] == all[i + 1]);
            }
        }
        splitting_undoes_joining(less, '/');
        assert(!names_something(all[at]));
        lemma_counting_one_more(all, at);
        lemma_first_char(all, a@);
        lemma_first_char(less, b@);
    }
}

/// What a joined path begins with.
proof fn lemma_first_char(parts: Seq<Seq<char>>, path: Seq<char>)
    requires
        parts.len() > 0,
        path == joined(parts, seq!['/']),
    ensures
        parts[0].len() > 0 ==> path.len() > 0 && path[0] == parts[0][0],
        parts[0].len() == 0 && parts.len() > 1 ==> path.len() > 0 && path[0] == '/',
        parts[0].len() == 0 && parts.len() == 1 ==> path.len() == 0,
{
    if parts.len() > 1 {
        lemma_joined_lists(seq![parts[0]], parts.skip(1), seq!['/']);
        assert(seq![parts[0]] + parts.skip(1) =~= parts);
        assert(joined(seq![parts[0]], seq!['/']) == parts[0]);
    }
}

} // verus!
