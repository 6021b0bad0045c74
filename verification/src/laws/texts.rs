//! Laws of texts and numbers.
use vstd::prelude::*;
use vstd::utf8::encode_utf8;

use crate::encoding::{base64, base64_decoded, base64_text_decodes, base64_text_length,
    percent_byte, percent_decoded, percent_text, percent_text_decodes, unreserved, urlencode};
use crate::number::{all_digits, decimal, decimal_reads_back, digits_value, is_digit, parse_i64,
    parse_usize, push_decimal, push_signed, signed_decimal};
use crate::text::{is_white_space, join, joined, lemma_strip_end, lemma_strip_start,
    pieces, same_list, same_opt, same_str, split, strip, strip_end, strip_start, texts, trim, trimmed,
    uppercase_all, uppercase_of, white_space, Strip};

verus! {

/// Whether `r` is what stands in `s` from `a` to `b`.
pub open spec fn cut_out(s: Seq<char>, r: Seq<char>, a: int, b: int) -> bool {
    0 <= a <= b <= s.len() && r == s.subrange(a, b)
}

/// Everything before what `strip_start` leaves is stripped.
pub proof fn lemma_stripped_before(s: Seq<char>, what: Strip)
    ensures
        forall|i: int|
            0 <= i < s.len() - strip_start(s, what).len() ==> what.strips(#[trigger] s[i]),
    decreases s.len(),
{
    if s.len() > 0 && what.strips(s[0]) {
        lemma_stripped_before(s.drop_first(), what);
        assert forall|i: int| 0 <= i < s.len() - strip_start(s, what).len() implies what.strips(
            #[trigger] s[i],
        ) by {
            if i > 0 {
                assert(s[i] == s.drop_first()[i - 1]);
            }
        }
    }
}

/// Everything behind what `strip_end` leaves is stripped.
pub proof fn lemma_stripped_behind(s: Seq<char>, what: Strip)
    ensures
        forall|i: int| strip_end(s, what).len() <= i < s.len() ==> what.strips(#[trigger] s[i]),
    decreases s.len(),
{
    if s.len() > 0 && what.strips(s.last()) {
        lemma_stripped_behind(s.drop_last(), what);
        assert forall|i: int| strip_end(s, what).len() <= i < s.len() implies what.strips(
            #[trigger] s[i],
        ) by {
            if i < s.len() - 1 {
                assert(s[i] == s.drop_last()[i]);
            }
        }
    }
}

/// Whether `r` is what is left of `s` without the white space at both ends, all of it, and nothing
/// else.
pub open spec fn trims(s: Seq<char>, r: Seq<char>) -> bool {
    &&& exists|a: int, b: int|
        {
            &&& #[trigger] cut_out(s, r, a, b)
            &&& forall|i: int| 0 <= i < a || b <= i < s.len() ==> white_space(#[trigger] s[i])
        }
    &&& r.len() > 0 ==> !white_space(r[0]) && !white_space(r.last())
}

/// Trimmed text is what is left without the white space around it.
pub proof fn lemma_trims(s: Seq<char>)
    ensures
        trims(s, trimmed(s)),
{
    let r = trimmed(s);
    let front = strip_start(s, Strip::Space);
    lemma_strip_start(s, Strip::Space);
    lemma_strip_end(front, Strip::Space);
    lemma_stripped_before(s, Strip::Space);
    lemma_stripped_behind(front, Strip::Space);
    let a = s.len() - front.len();
    let b = a + r.len();
    assert(r =~= s.subrange(a, b));
    assert forall|i: int| 0 <= i < a || b <= i < s.len() implies white_space(#[trigger] s[i]) by {
        if i >= b {
            assert(s[i] == front[i - a]);
            assert(Strip::Space.strips(front[i - a]));
        } else {
            assert(Strip::Space.strips(s[i]));
        }
    }
    assert(cut_out(s, r, a, b));
    if r.len() > 0 {
        assert(r[0] == front[0]);
    }
}

/// Trimming takes white space off both ends, all of it, and nothing else.
pub proof fn trimming_takes_the_space_around(s: &str, r: String)
    requires
        call_ensures(trim, (s,), r),
    ensures
        trims(s@, r@),
{
    lemma_trims(s@);
}

/// There is but one text that is left without the white space around it.
pub proof fn lemma_trims_once(s: Seq<char>, r: Seq<char>)
    requires
        trims(s, r),
    ensures
        r == trimmed(s),
{
    lemma_trims(s);
    let t = trimmed(s);
    let (a, b) = choose|a: int, b: int|
        {
            &&& #[trigger] cut_out(s, r, a, b)
            &&& forall|i: int| 0 <= i < a || b <= i < s.len() ==> white_space(#[trigger] s[i])
        };
    let (c, d) = choose|c: int, d: int|
        {
            &&& #[trigger] cut_out(s, t, c, d)
            &&& forall|i: int| 0 <= i < c || d <= i < s.len() ==> white_space(#[trigger] s[i])
        };
    if a < b {
        assert(s[a] == r[0] && s[b - 1] == r.last());
        assert(c <= a && b <= d);
        assert(s[c] == t[0] && s[d - 1] == t.last());
        assert(a <= c && d <= b);
    } else if c < d {
        assert(s[c] == t[0]);
        assert(white_space(s[c]));
    }
    assert(r =~= t);
}

/// White space is what it is by the Unicode tables: blanks, tabs and line ends are, nothing that is
/// seen in plain text is.
pub proof fn white_space_is_not_seen(c: char, r: bool)
    requires
        call_ensures(is_white_space, (c,), r),
    ensures
        c == ' ' || c == '\t' || c == '\n' || c == '\r' || c == '\u{a0}' || c == '\u{3000}' ==> r,
        '!' <= c <= '~' ==> !r,
        'А' <= c <= 'я' ==> !r,
        r && c > '\u{a0}' ==> '\u{1680}' <= c <= '\u{3000}',
{
}

/// Slashes are taken off the end, all of them, and nothing else.
pub proof fn slashes_are_taken_off_the_end(s: &str, r: String)
    requires
        call_ensures(strip, (s, None, Strip::Slash), r),
    ensures
        cut_out(s@, r@, 0, r@.len() as int),
        forall|i: int| r@.len() <= i < s@.len() ==> #[trigger] s@[i] == '/',
        r@.len() > 0 ==> r@.last() != '/',
{
    lemma_strip_end(s@, Strip::Slash);
    lemma_stripped_behind(s@, Strip::Slash);
    assert(r@ =~= s@.subrange(0, r@.len() as int));
    assert forall|i: int| r@.len() <= i < s@.len() implies #[trigger] s@[i] == '/' by {
        assert(Strip::Slash.strips(s@[i]));
    }
}

/// Putting the pieces together gives the text again.
pub proof fn lemma_pieces(s: Seq<char>, at: char)
    ensures
        pieces(s, at).len() > 0,
        joined(pieces(s, at), seq![at]) == s,
        forall|i: int| 0 <= i < pieces(s, at).len() ==> !(#[trigger] pieces(s, at)[i]).contains(at),
    decreases s.len(),
{
    let all = pieces(s, at);
    if s.len() > 0 {
        let front = s.drop_last();
        let before = pieces(front, at);
        lemma_pieces(front, at);
        assert(front.push(s.last()) =~= s);
        if s.last() == at {
            assert(all.drop_last() =~= before);
            assert(joined(all, seq![at]) =~= front + seq![at]);
        } else {
            assert(all.drop_last() =~= before.drop_last());
            if before.len() == 1 {
                assert(all.len() == 1);
                assert(joined(before, seq![at]) == before[0]);
                assert(joined(all, seq![at]) == all[0]);
            } else {
                assert(joined(all, seq![at]) =~= joined(before, seq![at]).push(s.last()));
            }
            assert(!before[before.len() - 1].contains(at));
            assert(all.last() == before.last().push(s.last()));
            assert(!all.last().contains(at)) by {
                if all.last().contains(at) {
                    let k = choose|k: int| 0 <= k < all.last().len() && all.last()[k] == at;
                    if k < before.last().len() {
                        assert(before.last()[k] == at);
                    }
                }
            }
        }
        assert forall|i: int| 0 <= i < all.len() implies !(#[trigger] all[i]).contains(at) by {
            if i < all.len() - 1 {
                assert(all[i] == before[i]);
            }
        }
    } else {
        assert(joined(all, seq![at]) == all[0]);
        assert(!all[0].contains(at));
    }
}

/// The pieces of a text hold nothing of the character between them, and with it between them they
/// make the text again.
pub proof fn splitting_loses_nothing(s: &str, at: char, r: Vec<String>)
    requires
        call_ensures(split, (s, at), r),
    ensures
        r@.len() > 0,
        joined(texts(r@), seq![at]) == s@,
        forall|i: int| 0 <= i < r@.len() ==> !(#[trigger] r@[i]@).contains(at),
{
    lemma_pieces(s@, at);
    assert(texts(r@).len() == r@.len());
    assert forall|i: int| 0 <= i < r@.len() implies !(#[trigger] r@[i]@).contains(at) by {
        assert(texts(r@)[i] == r@[i]@);
    }
}

/// Joining two lists one after the other is joining each, with the text between where they meet.
pub proof fn lemma_joined_lists(a: Seq<Seq<char>>, b: Seq<Seq<char>>, between: Seq<char>)
    requires
        a.len() > 0,
        b.len() > 0,
    ensures
        joined(a + b, between) == joined(a, between) + between + joined(b, between),
    decreases b.len(),
{
    assert((a + b).drop_last() =~= a + b.drop_last());
    if b.len() == 1 {
        assert(a + b.drop_last() =~= a);
    } else {
        lemma_joined_lists(a, b.drop_last(), between);
        assert(joined(a + b, between) =~= joined(a, between) + between + joined(b, between));
    }
}

/// Joining puts the text between wherever two parts meet and nowhere else: nothing comes of no
/// parts, a single part stands alone, and a list joins as any two halves of it do.
pub proof fn joining_goes_part_by_part(parts: &Vec<String>, between: &str, r: String, at: int)
    requires
        call_ensures(join, (parts, between), r),
    ensures
        parts@.len() == 0 ==> r@.len() == 0,
        parts@.len() == 1 ==> r@ == parts@[0]@,
        0 < at < parts@.len() ==> r@ == joined(texts(parts@).take(at), between@) + between@
            + joined(texts(parts@).skip(at), between@),
{
    if 0 < at < parts@.len() {
        lemma_joined_lists(texts(parts@).take(at), texts(parts@).skip(at), between@);
        assert(texts(parts@).take(at) + texts(parts@).skip(at) =~= texts(parts@));
    }
}

/// Texts, optional texts and lists of texts are compared by all that they hold.
pub proof fn texts_compare_by_contents(
    a: &str,
    b: &str,
    x: &Option<String>,
    y: &Option<String>,
    l: &Vec<String>,
    m: &Vec<String>,
    same: (bool, bool, bool),
)
    requires
        call_ensures(same_str, (a, b), same.0),
        call_ensures(same_opt, (x, y), same.1),
        call_ensures(same_list, (l, m), same.2),
    ensures
        same.0 <==> a@ == b@,
        same.1 <==> match (*x, *y) {
            (Some(one), Some(other)) => one@ == other@,
            (None, None) => true,
            _ => false,
        },
        same.2 <==> l@.len() == m@.len() && forall|i: int|
            0 <= i < l@.len() ==> (#[trigger] l@[i])@ == m@[i]@,
{
    if l@.len() == m@.len() && forall|i: int| 0 <= i < l@.len() ==> (#[trigger] l@[i])@ == m@[i]@ {
        assert(texts(l@) =~= texts(m@));
    }
    if same.2 {
        assert(texts(l@).len() == texts(m@).len());
        assert forall|i: int| 0 <= i < l@.len() implies (#[trigger] l@[i])@ == m@[i]@ by {
            assert(texts(l@)[i] == texts(m@)[i]);
        }
    }
}

/// Every text of a list is put into capitals, each in its place.
pub proof fn capitals_go_text_by_text(list: &Vec<String>, r: Vec<String>)
    requires
        call_ensures(uppercase_all, (list,), r),
    ensures
        r@.len() == list@.len(),
        forall|i: int| 0 <= i < r@.len() ==> (#[trigger] r@[i])@ == uppercase_of(list@[i]@),
{
    assert(texts(r@).len() == list@.len());
    assert forall|i: int| 0 <= i < r@.len() implies (#[trigger] r@[i])@ == uppercase_of(
        list@[i]@,
    ) by {
        assert(texts(r@)[i] == r@[i]@);
    }
}

/// Decimal text has no leading zeros.
pub proof fn lemma_no_leading_zero(n: nat)
    ensures
        decimal(n).len() > 0,
        n > 0 ==> decimal(n)[0] != '0',
        n < 10 ==> decimal(n).len() == 1,
    decreases n,
{
    if n >= 10 {
        lemma_no_leading_zero(n / 10);
        assert(decimal(n)[0] == decimal(n / 10)[0]);
    }
}

/// What is appended for a number are its digits, the highest first and none of them a leading zero.
pub proof fn numbers_are_appended_in_decimal(out: &mut String, n: u64, added: Seq<char>)
    requires
        call_ensures(push_decimal, (out, n), ()),
        added == final(out)@.skip(old(out)@.len() as int),
    ensures
        final(out)@ == old(out)@ + added,
        all_digits(added),
        digits_value(added) == n,
        added.len() > 1 ==> added[0] != '0',
{
    decimal_reads_back(n as nat);
    lemma_no_leading_zero(n as nat);
    assert(added =~= decimal(n as nat));
}

/// What is appended for a number with a sign is a minus where it is negative, and its digits.
pub proof fn signed_numbers_are_appended_in_decimal(out: &mut String, n: i64, added: Seq<char>)
    requires
        call_ensures(push_signed, (out, n), ()),
        added == final(out)@.skip(old(out)@.len() as int),
    ensures
        final(out)@ == old(out)@ + added,
        n >= 0 ==> all_digits(added) && digits_value(added) == n,
        n < 0 ==> {
            &&& added.len() > 0
            &&& added[0] == '-'
            &&& all_digits(added.drop_first())
            &&& digits_value(added.drop_first()) == -n
        },
{
    assert(added =~= signed_decimal(n as int));
    if n < 0 {
        decimal_reads_back((-n) as nat);
        assert(added.drop_first() =~= decimal((-n) as nat));
    } else {
        decimal_reads_back(n as nat);
    }
}

/// A digit more makes ten times the number and the digit; a leading zero makes no difference.
pub proof fn digits_count_by_tens(s: Seq<char>, c: char)
    requires
        is_digit(c),
    ensures
        digits_value(s.push(c)) == 10 * digits_value(s) + (c as int - '0' as int),
        digits_value(seq!['0'] + s) == digits_value(s),
        digits_value(seq![c]) == c as int - '0' as int,
    decreases s.len(),
{
    assert(s.push(c).drop_last() =~= s);
    let led = seq!['0'] + s;
    assert(seq![c].drop_last() =~= Seq::empty());
    assert(digits_value(seq![c]) == c as int - '0' as int) by {
        reveal_with_fuel(digits_value, 2);
    }
    if s.len() == 0 {
        assert(led =~= seq!['0']);
        assert(led.drop_last() =~= Seq::empty());
        reveal_with_fuel(digits_value, 2);
    } else {
        digits_count_by_tens(s.drop_last(), c);
        assert(led.drop_last() =~= seq!['0'] + s.drop_last());
    }
}

/// Whether a text is made of digits, after at most one plus sign, that say the number.
pub open spec fn says_unsigned(s: Seq<char>, n: int) -> bool {
    ||| all_digits(s) && digits_value(s) == n
    ||| s.len() > 0 && s[0] == '+' && all_digits(s.drop_first()) && digits_value(s.drop_first())
        == n
}

/// Whether a text is made of digits, after at most one sign, that say the number.
pub open spec fn says_signed(s: Seq<char>, n: int) -> bool {
    ||| says_unsigned(s, n)
    ||| s.len() > 0 && s[0] == '-' && all_digits(s.drop_first()) && digits_value(s.drop_first())
        == -n
}

/// A text is read as the number that it says, and only where it says one that fits.
pub proof fn numbers_are_read_as_they_are_written(
    s: &str,
    size: Option<usize>,
    number: Option<i64>,
    n: int,
)
    requires
        call_ensures(parse_usize, (s,), size),
        call_ensures(parse_i64, (s,), number),
    ensures
        0 <= n <= usize::MAX ==> (size == Some(n as usize) <==> says_unsigned(s@, n)),
        i64::MIN <= n <= i64::MAX ==> (number == Some(n as i64) <==> says_signed(s@, n)),
        says_unsigned(s@, n) && n > usize::MAX ==> size is None,
        says_signed(s@, n) && !(i64::MIN <= n <= i64::MAX) ==> number is None,
{
    let t = s@;
    if t.len() > 0 && (t[0] == '+' || t[0] == '-') {
        assert(!is_digit(t[0]));
        assert(!all_digits(t));
    }
}

/// Whether a character stands for itself in an address.
pub open spec fn plain_in_addresses(c: char) -> bool {
    ||| 'A' <= c <= 'Z'
    ||| 'a' <= c <= 'z'
    ||| '0' <= c <= '9'
    ||| c == '-'
    ||| c == '_'
    ||| c == '.'
    ||| c == '~'
}

/// A percent-encoded text is made of characters that stand for themselves and of `%`.
pub proof fn lemma_percent_chars(bytes: Seq<u8>)
    ensures
        forall|i: int|
            0 <= i < percent_text(bytes).len() ==> plain_in_addresses(
                #[trigger] percent_text(bytes)[i],
            ) || percent_text(bytes)[i] == '%',
        bytes.len() > 0 ==> percent_text(bytes).len() > 0,
    decreases bytes.len(),
{
    if bytes.len() > 0 {
        lemma_percent_chars(bytes.drop_first());
        let first = percent_byte(bytes[0]);
        let rest = percent_text(bytes.drop_first());
        let all = percent_text(bytes);
        assert(all == first + rest);
        assert forall|i: int| 0 <= i < all.len() implies plain_in_addresses(#[trigger] all[i])
            || all[i] == '%' by {
            if i >= first.len() {
                assert(all[i] == rest[i - first.len()]);
            } else {
                assert(all[i] == first[i]);
            }
        }
    }
}

/// What stands for itself is left as it is.
proof fn lemma_plain_bytes(bytes: Seq<u8>)
    requires
        forall|i: int| 0 <= i < bytes.len() ==> plain_in_addresses(#[trigger] bytes[i] as char),
    ensures
        percent_text(bytes).len() == bytes.len(),
        forall|i: int|
            0 <= i < bytes.len() ==> #[trigger] percent_text(bytes)[i] == bytes[i] as char,
    decreases bytes.len(),
{
    if bytes.len() > 0 {
        let rest = bytes.drop_first();
        assert forall|i: int| 0 <= i < rest.len() implies plain_in_addresses(
            #[trigger] rest[i] as char,
        ) by {
            assert(rest[i] == bytes[i + 1]);
        }
        lemma_plain_bytes(rest);
        assert(plain_in_addresses(bytes[0] as char));
        assert(unreserved(bytes[0]));
        let all = percent_text(bytes);
        assert forall|i: int| 0 <= i < bytes.len() implies #[trigger] all[i] == bytes[i] as char by {
            if i > 0 {
                assert(all[i] == percent_text(rest)[i - 1]);
                assert(bytes[i] == rest[i - 1]);
            }
        }
    }
}

/// Percent-encoding gives text that an address can hold, from which the bytes can be had back;
/// letters, digits and a few marks stand for themselves.
pub proof fn encoded_texts_decode(s: &str, r: String)
    requires
        call_ensures(urlencode, (s,), r),
    ensures
        percent_decoded(r@) == encode_utf8(s@),
        forall|i: int|
            0 <= i < r@.len() ==> plain_in_addresses(#[trigger] r@[i]) || r@[i] == '%',
        (forall|i: int|
            0 <= i < encode_utf8(s@).len() ==> plain_in_addresses(
                #[trigger] encode_utf8(s@)[i] as char,
            )) ==> r@ == Seq::new(encode_utf8(s@).len(), |i: int| encode_utf8(s@)[i] as char),
{
    let bytes = encode_utf8(s@);
    percent_text_decodes(bytes);
    lemma_percent_chars(bytes);
    if forall|i: int| 0 <= i < bytes.len() ==> plain_in_addresses(#[trigger] bytes[i] as char) {
        lemma_plain_bytes(bytes);
        assert(r@ =~= Seq::new(bytes.len(), |i: int| bytes[i] as char));
    }
}

/// Base64 gives four characters for every three bytes begun, from which the bytes can be had back.
pub proof fn credentials_decode(input: &[u8], r: String)
    requires
        call_ensures(base64, (input,), r),
    ensures
        base64_decoded(r@) == input@,
        r@.len() == (input@.len() + 2) / 3 * 4,
{
    base64_text_decodes(input@);
    base64_text_length(input@);
}

} // verus!
