//! Characters and strings: what the rest of the library needs of them, stated over `Seq<char>`.
use vstd::prelude::*;

verus! {

/// `String::push` appends the given character to the end of the string.
pub assume_specification[ String::push ](s: &mut String, c: char)
    ensures
        final(s)@ == old(s)@.push(c),
;

/// What `str::to_uppercase` makes of a string: its uppercase equivalent by the Unicode tables.
pub uninterp spec fn uppercase_of(s: Seq<char>) -> Seq<char>;

/// What `str::to_lowercase` makes of a string: its lowercase equivalent by the Unicode tables.
pub uninterp spec fn lowercase_of(s: Seq<char>) -> Seq<char>;

/// `str::to_uppercase`: the result is a function of the string alone, named `uppercase_of`.
#[verifier::external_body]
pub(crate) fn to_uppercase(s: &str) -> (r: String)
    ensures
        r@ == uppercase_of(s@),
{
    s.to_uppercase()
}

/// `str::to_lowercase`: the result is a function of the string alone, named `lowercase_of`.
#[verifier::external_body]
pub(crate) fn to_lowercase(s: &str) -> (r: String)
    ensures
        r@ == lowercase_of(s@),
{
    s.to_lowercase()
}

/// The contents of a list of strings.
pub open spec fn texts(list: Seq<String>) -> Seq<Seq<char>> {
    Seq::new(list.len(), |i: int| list[i]@)
}

/// The contents of an optional string.
pub open spec fn opt_text(s: Option<String>) -> Option<Seq<char>> {
    match s {
        Some(t) => Some(t@),
        None => None,
    }
}

/// A copy of an optional string.
pub fn copy_opt(s: &Option<String>) -> (r: Option<String>)
    ensures
        r == *s,
{
    match s {
        Some(t) => Some(t.clone()),
        None => None,
    }
}

/// A copy of a list of strings.
pub fn copy_list(list: &Vec<String>) -> (r: Vec<String>)
    ensures
        r@ == list@,
{
    let mut out: Vec<String> = Vec::new();
    for i in 0..list.len()
        invariant
            out@ == list@.take(i as int),
    {
        out.push(list[i].clone());
        assert(out@ =~= list@.take(i + 1));
    }
    assert(list@.take(list@.len() as int) =~= list@);
    out
}

/// Whether two strings are equal.
pub fn same_str(a: &str, b: &str) -> (r: bool)
    ensures
        r == (a@ == b@),
{
    a.to_string() == b.to_string()
}

/// Whether two optional strings are equal.
pub fn same_opt(a: &Option<String>, b: &Option<String>) -> (r: bool)
    ensures
        r == (opt_text(*a) == opt_text(*b)),
{
    match (a, b) {
        (Some(x), Some(y)) => *x == *y,
        (None, None) => true,
        _ => false,
    }
}

/// Whether two lists of strings are equal.
pub fn same_list(a: &Vec<String>, b: &Vec<String>) -> (r: bool)
    ensures
        r == (texts(a@) == texts(b@)),
{
    if a.len() != b.len() {
        assert(texts(a@).len() != texts(b@).len());
        return false;
    }
    for i in 0..a.len()
        invariant
            a.len() == b.len(),
            forall|j: int| 0 <= j < i ==> texts(a@)[j] == texts(b@)[j],
    {
        if a[i] != b[i] {
            assert(texts(a@)[i as int] != texts(b@)[i as int]);
            return false;
        }
    }
    assert(texts(a@) =~= texts(b@));
    true
}

/// The characters of a string.
pub fn chars_of(s: &str) -> (r: Vec<char>)
    ensures
        r@ == s@,
{
    let mut out: Vec<char> = Vec::new();
    for c in it: s.chars()
        invariant
            out@ == it.seq().take(it.index()),
            it.seq() == s@,
    {
        out.push(c);
    }
    out
}

/// The uppercase equivalents of some texts.
pub open spec fn uppercased(list: Seq<Seq<char>>) -> Seq<Seq<char>> {
    Seq::new(list.len(), |i: int| uppercase_of(list[i]))
}

/// The uppercase equivalents of some texts.
pub fn uppercase_all(list: &Vec<String>) -> (r: Vec<String>)
    ensures
        texts(r@) == uppercased(texts(list@)),
{
    let mut out: Vec<String> = Vec::new();
    for i in 0..list.len()
        invariant
            out@.len() == i,
            forall|j: int| 0 <= j < i ==> #[trigger] out@[j]@ == uppercase_of(list@[j]@),
    {
        out.push(to_uppercase(list[i].as_str()));
    }
    assert(texts(out@) =~= uppercased(texts(list@)));
    out
}

/// What may be stripped from the edges of a string.
#[derive(Clone, Copy)]
pub enum Strip {
    /// White space.
    Space,
    /// Dots and white space, in any mixture.
    DotOrSpace,
    /// Slashes.
    Slash,
}

impl Strip {
    /// Whether `c` is stripped.
    pub open spec fn strips(self, c: char) -> bool {
        match self {
            Strip::Space => white_space(c),
            Strip::DotOrSpace => c == '.' || white_space(c),
            Strip::Slash => c == '/',
        }
    }

    fn test(self, c: char) -> (r: bool)
        ensures
            r == self.strips(c),
    {
        match self {
            Strip::Space => is_white_space(c),
            Strip::DotOrSpace => c == '.' || is_white_space(c),
            Strip::Slash => c == '/',
        }
    }
}

/// Whether `c` has the Unicode property `White_Space`.
pub open spec fn white_space(c: char) -> bool {
    ||| '\u{9}' <= c <= '\u{d}'
    ||| c == ' '
    ||| c == '\u{85}'
    ||| c == '\u{a0}'
    ||| c == '\u{1680}'
    ||| '\u{2000}' <= c <= '\u{200a}'
    ||| c == '\u{2028}'
    ||| c == '\u{2029}'
    ||| c == '\u{202f}'
    ||| c == '\u{205f}'
    ||| c == '\u{3000}'
}

/// Whether `c` has the Unicode property `White_Space`.
pub fn is_white_space(c: char) -> (r: bool)
    ensures
        r == white_space(c),
{
    ('\u{9}' <= c && c <= '\u{d}') || c == ' ' || c == '\u{85}' || c == '\u{a0}' || c == '\u{1680}'
        || ('\u{2000}' <= c && c <= '\u{200a}') || c == '\u{2028}' || c == '\u{2029}' || c
        == '\u{202f}' || c == '\u{205f}' || c == '\u{3000}'
}

/// `s` without its longest prefix of stripped characters.
pub open spec fn strip_start(s: Seq<char>, what: Strip) -> Seq<char>
    decreases s.len(),
{
    if s.len() > 0 && what.strips(s[0]) {
        strip_start(s.drop_first(), what)
    } else {
        s
    }
}

/// `s` without its longest suffix of stripped characters.
pub open spec fn strip_end(s: Seq<char>, what: Strip) -> Seq<char>
    decreases s.len(),
{
    if s.len() > 0 && what.strips(s.last()) {
        strip_end(s.drop_last(), what)
    } else {
        s
    }
}

/// `s` without white space at either end.
pub open spec fn trimmed(s: Seq<char>) -> Seq<char> {
    strip_end(strip_start(s, Strip::Space), Strip::Space)
}

/// `strip_start` gives a suffix that begins with a character that stays.
pub proof fn lemma_strip_start(s: Seq<char>, what: Strip)
    ensures
        strip_start(s, what).len() <= s.len(),
        strip_start(s, what) == s.skip(s.len() - strip_start(s, what).len()),
        strip_start(s, what).len() > 0 ==> !what.strips(strip_start(s, what)[0]),
    decreases s.len(),
{
    if s.len() > 0 && what.strips(s[0]) {
        lemma_strip_start(s.drop_first(), what);
        let n = strip_start(s, what).len();
        assert(s.drop_first().skip(s.len() - 1 - n) =~= s.skip(s.len() - n));
    } else {
        assert(s.skip(0) =~= s);
    }
}

/// `strip_end` gives a prefix that ends with a character that stays.
pub proof fn lemma_strip_end(s: Seq<char>, what: Strip)
    ensures
        strip_end(s, what).len() <= s.len(),
        strip_end(s, what) == s.take(strip_end(s, what).len() as int),
        strip_end(s, what).len() > 0 ==> !what.strips(strip_end(s, what).last()),
    decreases s.len(),
{
    if s.len() > 0 && what.strips(s.last()) {
        lemma_strip_end(s.drop_last(), what);
        let n = strip_end(s, what).len() as int;
        assert(s.drop_last().take(n) =~= s.take(n));
    } else {
        assert(s.take(s.len() as int) =~= s);
    }
}

/// The string without `front` characters at its start and without `back` characters at its end.
pub fn strip(s: &str, front: Option<Strip>, back: Strip) -> (r: String)
    ensures
        r@ == strip_end(
            match front {
                Some(what) => strip_start(s@, what),
                None => s@,
            },
            back,
        ),
{
    let chars = chars_of(s);
    let mut from: usize = 0;
    let mut to: usize = chars.len();
    assert(s@.skip(0) =~= s@);
    if let Some(what) = front {
        while from < to && what.test(chars[from])
            invariant
                from <= to == chars@.len(),
                chars@ == s@,
                strip_start(s@, what) == strip_start(s@.skip(from as int), what),
            decreases to - from,
        {
            assert(s@.skip(from as int).drop_first() =~= s@.skip(from + 1));
            from = from + 1;
        }
    }
    let ghost body = s@.skip(from as int);
    assert(body == match front {
        Some(what) => strip_start(s@, what),
        None => s@,
    });
    assert(s@.subrange(from as int, to as int) =~= body);
    while to > from && back.test(chars[to - 1])
        invariant
            from <= to <= chars@.len(),
            chars@ == s@,
            strip_end(body, back) == strip_end(s@.subrange(from as int, to as int), back),
        decreases to,
    {
        assert(s@.subrange(from as int, to as int).drop_last() =~= s@.subrange(
            from as int,
            to - 1,
        ));
        to = to - 1;
    }
    s.substring_char(from, to).to_string()
}

/// The string without white space at either end.
pub fn trim(s: &str) -> (r: String)
    ensures
        r@ == trimmed(s@),
{
    strip(s, Some(Strip::Space), Strip::Space)
}

/// Trimming what is trimmed changes nothing.
pub proof fn trimming_is_idempotent(s: Seq<char>)
    ensures
        trimmed(trimmed(s)) == trimmed(s),
{
    let a = strip_start(s, Strip::Space);
    let b = strip_end(a, Strip::Space);
    lemma_strip_start(s, Strip::Space);
    lemma_strip_end(a, Strip::Space);
    if b.len() > 0 {
        assert(b[0] == a[0]);
    }
}

/// The pieces of `s` between the occurrences of `at`.
pub open spec fn pieces(s: Seq<char>, at: char) -> Seq<Seq<char>>
    decreases s.len(),
{
    if s.len() == 0 {
        seq![s]
    } else {
        let before = pieces(s.drop_last(), at);
        if s.last() == at {
            before.push(Seq::empty())
        } else {
            before.drop_last().push(before.last().push(s.last()))
        }
    }
}

/// The pieces of `s` between the occurrences of `at`.
pub fn split(s: &str, at: char) -> (r: Vec<String>)
    ensures
        texts(r@) == pieces(s@, at),
{
    let chars = chars_of(s);
    let mut done: Vec<String> = Vec::new();
    let mut open: String = String::new();
    assert(s@.take(0) =~= Seq::empty());
    assert(texts(done@).push(open@) =~= pieces(s@.take(0), at));
    for i in 0..chars.len()
        invariant
            chars@ == s@,
            texts(done@).push(open@) == pieces(s@.take(i as int), at),
    {
        let ghost before = texts(done@).push(open@);
        assert(s@.take(i + 1).drop_last() =~= s@.take(i as int));
        let c = chars[i];
        if c == at {
            let ghost was = done@;
            done.push(open);
            open = String::new();
            assert(texts(done@) =~= before);
        } else {
            open.push(c);
            assert(before.drop_last() =~= texts(done@));
        }
    }
    assert(s@.take(s@.len() as int) =~= s@);
    let ghost was = done@;
    done.push(open);
    assert(texts(done@) =~= texts(was).push(open@));
    done
}

/// The parts one after another, with `between` wherever two of them meet.
pub open spec fn joined(parts: Seq<Seq<char>>, between: Seq<char>) -> Seq<char>
    decreases parts.len(),
{
    if parts.len() == 0 {
        Seq::empty()
    } else if parts.len() == 1 {
        parts[0]
    } else {
        joined(parts.drop_last(), between) + between + parts.last()
    }
}

/// The parts one after another, with `between` wherever two of them meet.
pub fn join(parts: &Vec<String>, between: &str) -> (r: String)
    ensures
        r@ == joined(texts(parts@), between@),
{
    let mut out: String = String::new();
    assert(texts(parts@).take(0) =~= Seq::empty());
    for i in 0..parts.len()
        invariant
            out@ == joined(texts(parts@).take(i as int), between@),
    {
        assert(texts(parts@).take(i + 1).drop_last() =~= texts(parts@).take(i as int));
        if i > 0 {
            out.append(between);
        }
        out.append(parts[i].as_str());
        assert(out@ =~= joined(texts(parts@).take(i + 1), between@));
    }
    assert(texts(parts@).take(parts@.len() as int) =~= texts(parts@));
    out
}

/// A string is trimmed exactly if it has no white space at its edges.
pub proof fn lemma_trimmed(s: Seq<char>)
    ensures
        trimmed(s) == s <==> s.len() == 0 || !white_space(s[0]) && !white_space(s.last()),
{
    lemma_strip_start(s, Strip::Space);
    lemma_strip_end(strip_start(s, Strip::Space), Strip::Space);
    if trimmed(s) == s {
        assert(strip_start(s, Strip::Space).len() == s.len());
        assert(strip_start(s, Strip::Space) =~= s);
    }
}

proof fn lemma_pieces_after(a: Seq<char>, b: Seq<char>, at: char)
    requires
        !b.contains(at),
    ensures
        pieces(a.push(at) + b, at) == pieces(a, at).push(b),
    decreases b.len(),
{
    let s = a.push(at) + b;
    if b.len() == 0 {
        assert(s =~= a.push(at));
        assert(s.drop_last() =~= a);
        assert(b =~= Seq::empty());
    } else {
        assert(!b.drop_last().contains(at));
        lemma_pieces_after(a, b.drop_last(), at);
        assert(s.drop_last() =~= a.push(at) + b.drop_last());
        let before = pieces(a, at).push(b.drop_last());
        assert(b[b.len() - 1] != at);
        assert(before.drop_last() =~= pieces(a, at));
        assert(b.drop_last().push(b.last()) =~= b);
    }
}

proof fn lemma_one_piece(b: Seq<char>, at: char)
    requires
        !b.contains(at),
    ensures
        pieces(b, at) == seq![b],
    decreases b.len(),
{
    if b.len() > 0 {
        assert(!b.drop_last().contains(at));
        lemma_one_piece(b.drop_last(), at);
        assert(b[b.len() - 1] != at);
        assert(b.drop_last().push(b.last()) =~= b);
        assert(pieces(b, at) =~= seq![b]);
    }
}

/// Splitting undoes joining, where no part holds the character between the parts.
pub proof fn splitting_undoes_joining(parts: Seq<Seq<char>>, at: char)
    requires
        parts.len() > 0,
        forall|i: int| 0 <= i < parts.len() ==> !(#[trigger] parts[i]).contains(at),
    ensures
        pieces(joined(parts, seq![at]), at) == parts,
    decreases parts.len(),
{
    if parts.len() == 1 {
        lemma_one_piece(parts[0], at);
        assert(parts =~= seq![parts[0]]);
    } else {
        let front = parts.drop_last();
        assert forall|i: int| 0 <= i < front.len() implies !(#[trigger] front[i]).contains(at) by {
            assert(front[i] == parts[i]);
        }
        splitting_undoes_joining(front, at);
        lemma_pieces_after(joined(front, seq![at]), parts.last(), at);
        assert(joined(front, seq![at]).push(at) =~= joined(front, seq![at]) + seq![at]);
        assert(front.push(parts.last()) =~= parts);
    }
}

} // verus!
