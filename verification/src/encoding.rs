//! The two text encodings that requests need: percent-encoding for URLs, Base64 for credentials.
use vstd::prelude::*;
use vstd::utf8::encode_utf8;

verus! {

/// Whether a byte stands for itself in a URL.
pub open spec fn unreserved(b: u8) -> bool {
    ||| 'A' as u8 <= b <= 'Z' as u8
    ||| 'a' as u8 <= b <= 'z' as u8
    ||| '0' as u8 <= b <= '9' as u8
    ||| b == '-' as u8
    ||| b == '_' as u8
    ||| b == '.' as u8
    ||| b == '~' as u8
}

/// The uppercase hexadecimal digit for `d`.
pub open spec fn hex_digit(d: int) -> char {
    if d < 10 {
        (d + '0' as int) as char
    } else {
        (d - 10 + 'A' as int) as char
    }
}

/// What the hexadecimal digit `c` stands for.
pub open spec fn hex_value(c: char) -> int {
    if '0' <= c <= '9' {
        c as int - '0' as int
    } else {
        c as int - 'A' as int + 10
    }
}

/// One byte in a URL: itself, or `%` and two hexadecimal digits.
pub open spec fn percent_byte(b: u8) -> Seq<char> {
    if unreserved(b) {
        seq![b as char]
    } else {
        seq!['%', hex_digit(b as int / 16), hex_digit(b as int % 16)]
    }
}

/// A run of bytes in a URL.
pub open spec fn percent_text(bytes: Seq<u8>) -> Seq<char>
    decreases bytes.len(),
{
    if bytes.len() == 0 {
        Seq::empty()
    } else {
        percent_byte(bytes[0]) + percent_text(bytes.drop_first())
    }
}

/// The bytes that a percent-encoded text stands for.
pub open spec fn percent_decoded(s: Seq<char>) -> Seq<u8>
    decreases s.len(),
{
    if s.len() == 0 {
        Seq::empty()
    } else if s[0] == '%' && s.len() >= 3 {
        seq![(hex_value(s[1]) * 16 + hex_value(s[2])) as u8] + percent_decoded(s.skip(3))
    } else {
        seq![s[0] as u8] + percent_decoded(s.drop_first())
    }
}

fn hex_char(d: u8) -> (c: char)
    requires
        d < 16,
    ensures
        c == hex_digit(d as int),
{
    if d < 10 {
        (d + 48u8) as char
    } else {
        (d - 10 + 65u8) as char
    }
}

/// Percent-encodes the UTF-8 bytes of `s`; letters, digits and `-_.~` stand for themselves.
pub fn urlencode(s: &str) -> (r: String)
    ensures
        r@ == percent_text(encode_utf8(s@)),
{
    let bytes = s.as_bytes();
    let mut out: String = String::new();
    assert(bytes@.skip(0) =~= bytes@);
    for i in 0..bytes.len()
        invariant
            out@ + percent_text(bytes@.skip(i as int)) == percent_text(bytes@),
    {
        let b: u8 = bytes[i];
        let ghost was = out@;
        assert(bytes@.skip(i as int).drop_first() =~= bytes@.skip(i + 1));
        if (65u8 <= b && b <= 90u8) || (97u8 <= b && b <= 122u8) || (48u8 <= b && b <= 57u8) || b
            == 45u8 || b == 95u8 || b == 46u8 || b == 126u8 {
            out.push(b as char);
        } else {
            out.push('%');
            out.push(hex_char(b / 16));
            out.push(hex_char(b % 16));
        }
        assert(out@ =~= was + percent_byte(b));
        assert(out@ + percent_text(bytes@.skip(i + 1)) =~= was + percent_text(
            bytes@.skip(i as int),
        ));
    }
    assert(out@ + percent_text(bytes@.skip(bytes@.len() as int)) =~= out@);
    out
}

/// Percent-encoding loses nothing: decoding gives the bytes back.
pub proof fn percent_text_decodes(bytes: Seq<u8>)
    ensures
        percent_decoded(percent_text(bytes)) == bytes,
    decreases bytes.len(),
{
    if bytes.len() > 0 {
        let b = bytes[0];
        let rest = percent_text(bytes.drop_first());
        percent_text_decodes(bytes.drop_first());
        let all = percent_text(bytes);
        if unreserved(b) {
            assert(all.drop_first() =~= rest);
            assert(all[0] == b as char);
            assert(all[0] as u8 == b);
        } else {
            assert(all.skip(3) =~= rest);
            let hi = b as int / 16;
            let lo = b as int % 16;
            assert(hex_value(hex_digit(hi)) == hi);
            assert(hex_value(hex_digit(lo)) == lo);
        }
        assert(percent_decoded(all) =~= bytes);
    }
}

/// Percent-encoded text holds nothing but characters that stand for themselves and `%`.
pub proof fn percent_text_is_url_safe(bytes: Seq<u8>, i: int)
    requires
        0 <= i < percent_text(bytes).len(),
    ensures
        percent_text(bytes)[i] == '%' || exists|b: u8|
            #[trigger] unreserved(b) && percent_text(bytes)[i] == b as char,
    decreases bytes.len(),
{
    let first = percent_byte(bytes[0]);
    if i < first.len() {
        if unreserved(bytes[0]) {
            assert(percent_text(bytes)[i] == bytes[0] as char);
        } else if i > 0 {
            let d = if i == 1 {
                bytes[0] as int / 16
            } else {
                bytes[0] as int % 16
            };
            assert(percent_text(bytes)[i] == hex_digit(d));
            let b = hex_digit(d) as u8;
            assert(unreserved(b));
            assert(b as char == hex_digit(d));
        }
    } else {
        percent_text_is_url_safe(bytes.drop_first(), i - first.len());
    }
}

/// The Base64 character for `v`, of 64.
pub open spec fn sextet_char(v: int) -> char {
    if v < 26 {
        (v + 'A' as int) as char
    } else if v < 52 {
        (v - 26 + 'a' as int) as char
    } else if v < 62 {
        (v - 52 + '0' as int) as char
    } else if v == 62 {
        '+'
    } else {
        '/'
    }
}

/// What the Base64 character `c` stands for; padding counts as nothing.
pub open spec fn sextet_value(c: char) -> int {
    if 'A' <= c <= 'Z' {
        c as int - 'A' as int
    } else if 'a' <= c <= 'z' {
        c as int - 'a' as int + 26
    } else if '0' <= c <= '9' {
        c as int - '0' as int + 52
    } else if c == '+' {
        62
    } else if c == '/' {
        63
    } else {
        0
    }
}

/// Three bytes as one number.
pub open spec fn triple(a: int, b: int, c: int) -> int {
    a * 0x10000 + b * 0x100 + c
}

/// The digit of `n` to the base 64 that has `place` digits behind it.
pub open spec fn sextet(n: int, place: int) -> int
    decreases place,
{
    if place <= 0 {
        n % 64
    } else {
        sextet(n / 64, place - 1)
    }
}

/// Base64 of a run of bytes: four characters for every three bytes, the last group padded by `=`.
pub open spec fn base64_text(bytes: Seq<u8>) -> Seq<char>
    decreases bytes.len(),
{
    if bytes.len() == 0 {
        Seq::empty()
    } else {
        let n = triple(
            bytes[0] as int,
            if bytes.len() > 1 {
                bytes[1] as int
            } else {
                0
            },
            if bytes.len() > 2 {
                bytes[2] as int
            } else {
                0
            },
        );
        let group = seq![
            sextet_char(sextet(n, 3)),
            sextet_char(sextet(n, 2)),
            if bytes.len() > 1 {
                sextet_char(sextet(n, 1))
            } else {
                '='
            },
            if bytes.len() > 2 {
                sextet_char(sextet(n, 0))
            } else {
                '='
            },
        ];
        if bytes.len() <= 3 {
            group
        } else {
            group + base64_text(bytes.skip(3))
        }
    }
}

/// The bytes that a Base64 text stands for.
pub open spec fn base64_decoded(s: Seq<char>) -> Seq<u8>
    decreases s.len(),
{
    if s.len() < 4 {
        Seq::empty()
    } else {
        let n = sextet_value(s[0]) * 0x40000 + sextet_value(s[1]) * 0x1000 + sextet_value(s[2])
            * 0x40 + sextet_value(s[3]);
        let group = seq![(n / 0x10000) as u8, (n / 0x100 % 0x100) as u8, (n % 0x100) as u8];
        if s[2] == '=' {
            group.take(1)
        } else if s[3] == '=' {
            group.take(2)
        } else {
            group + base64_decoded(s.skip(4))
        }
    }
}

fn base64_char(v: u32) -> (c: char)
    requires
        v < 64,
    ensures
        c == sextet_char(v as int),
{
    if v < 26 {
        (v as u8 + 65u8) as char
    } else if v < 52 {
        (v as u8 - 26 + 97u8) as char
    } else if v < 62 {
        (v as u8 - 52 + 48u8) as char
    } else if v == 62 {
        '+'
    } else {
        '/'
    }
}

/// Base64 with padding.
pub fn base64(input: &[u8]) -> (r: String)
    ensures
        r@ == base64_text(input@),
{
    let mut out: String = String::new();
    let mut i: usize = 0;
    assert(input@.skip(0) =~= input@);
    while i < input.len()
        invariant
            i <= input@.len(),
            out@ + base64_text(input@.skip(i as int)) == base64_text(input@),
        decreases input@.len() - i,
    {
        let ghost rest = input@.skip(i as int);
        let ghost was = out@;
        let left: usize = input.len() - i;
        let b0: u32 = input[i] as u32;
        let b1: u32 = if left > 1 {
            input[i + 1] as u32
        } else {
            0
        };
        let b2: u32 = if left > 2 {
            input[i + 2] as u32
        } else {
            0
        };
        let n: u32 = b0 * 0x10000 + b1 * 0x100 + b2;
        proof {
            lemma_sextets(n as int);
        }
        out.push(base64_char(n / 64 / 64 / 64));
        out.push(base64_char(n / 64 / 64 % 64));
        out.push(
            if left > 1 {
                base64_char(n / 64 % 64)
            } else {
                '='
            },
        );
        out.push(
            if left > 2 {
                base64_char(n % 64)
            } else {
                '='
            },
        );
        let step: usize = if left < 3 {
            left
        } else {
            3
        };
        let ghost group = base64_text(rest).take(4);
        assert(out@ =~= was + group);
        assert(rest.skip(step as int) =~= input@.skip(i + step));
        assert(base64_text(rest) =~= group + base64_text(rest.skip(step as int)));
        assert(out@ + base64_text(input@.skip(i + step)) =~= was + base64_text(rest));
        i = i + step;
    }
    assert(out@ + base64_text(input@.skip(input@.len() as int)) =~= out@);
    out
}

/// The digits to the base 64 of a number of four such digits, which they determine.
proof fn lemma_sextets(n: int)
    requires
        0 <= n < 0x1000000,
    ensures
        sextet(n, 0) == n % 64,
        sextet(n, 1) == n / 64 % 64,
        sextet(n, 2) == n / 64 / 64 % 64,
        sextet(n, 3) == n / 64 / 64 / 64,
        n / 64 / 64 / 64 < 64,
        n == sextet(n, 3) * 0x40000 + sextet(n, 2) * 0x1000 + sextet(n, 1) * 0x40 + sextet(n, 0),
{
    reveal_with_fuel(sextet, 4);
}

/// The three bytes of a number made of three bytes.
proof fn lemma_triple(a: int, b: int, c: int)
    requires
        0 <= a < 256,
        0 <= b < 256,
        0 <= c < 256,
    ensures
        0 <= triple(a, b, c) < 0x1000000,
        triple(a, b, c) / 0x10000 == a,
        triple(a, b, c) / 0x100 % 0x100 == b,
        triple(a, b, c) % 0x100 == c,
{
    assert(triple(a, b, c) / 0x100 == a * 0x100 + b);
}

/// A character stands for the value that it was chosen for, and is no padding.
proof fn lemma_sextet_round_trip(v: int)
    requires
        0 <= v < 64,
    ensures
        sextet_value(sextet_char(v)) == v,
        sextet_char(v) != '=',
{
}

/// Bytes that are not there leave the digits that padding stands for at zero.
proof fn lemma_padding(a: int, b: int)
    requires
        0 <= a < 256,
        0 <= b < 256,
    ensures
        sextet(triple(a, b, 0), 0) == 0,
        sextet(triple(a, 0, 0), 1) == 0,
{
    reveal_with_fuel(sextet, 2);
    assert(triple(a, 0, 0) / 64 == a * 1024);
}

/// The number that four characters stand for.
spec fn quad(s: Seq<char>) -> int {
    sextet_value(s[0]) * 0x40000 + sextet_value(s[1]) * 0x1000 + sextet_value(s[2]) * 0x40
        + sextet_value(s[3])
}

/// The first group stands for the number that it was made of, and shows how many bytes there were.
proof fn lemma_first_group(bytes: Seq<u8>)
    requires
        bytes.len() > 0,
    ensures
        base64_text(bytes).len() >= 4,
        quad(base64_text(bytes)) == triple(
            bytes[0] as int,
            if bytes.len() > 1 {
                bytes[1] as int
            } else {
                0
            },
            if bytes.len() > 2 {
                bytes[2] as int
            } else {
                0
            },
        ),
        base64_text(bytes)[2] == '=' <==> bytes.len() == 1,
        base64_text(bytes)[3] == '=' <==> bytes.len() <= 2,
{
    let a = bytes[0] as int;
    let b = if bytes.len() > 1 {
        bytes[1] as int
    } else {
        0
    };
    let c = if bytes.len() > 2 {
        bytes[2] as int
    } else {
        0
    };
    let n = triple(a, b, c);
    lemma_triple(a, b, c);
    lemma_sextets(n);
    lemma_padding(a, b);
    lemma_sextet_round_trip(sextet(n, 0));
    lemma_sextet_round_trip(sextet(n, 1));
    lemma_sextet_round_trip(sextet(n, 2));
    lemma_sextet_round_trip(sextet(n, 3));
}

/// Base64 loses nothing: decoding gives the bytes back.
pub proof fn base64_text_decodes(bytes: Seq<u8>)
    ensures
        base64_decoded(base64_text(bytes)) == bytes,
    decreases bytes.len(),
{
    if bytes.len() > 0 {
        let text = base64_text(bytes);
        let a = bytes[0];
        let b = if bytes.len() > 1 {
            bytes[1]
        } else {
            0
        };
        let c = if bytes.len() > 2 {
            bytes[2]
        } else {
            0
        };
        lemma_first_group(bytes);
        lemma_triple(a as int, b as int, c as int);
        let n = quad(text);
        let group = seq![(n / 0x10000) as u8, (n / 0x100 % 0x100) as u8, (n % 0x100) as u8];
        assert(group =~= seq![a, b, c]);
        if bytes.len() >= 3 {
            base64_text_decodes(bytes.skip(3));
            assert(text.skip(4) =~= base64_text(bytes.skip(3)));
            assert(group + bytes.skip(3) =~= bytes);
        } else {
            assert(group.take(bytes.len() as int) =~= bytes);
        }
    }
}

/// Base64 takes four characters for every three bytes begun.
pub proof fn base64_text_length(bytes: Seq<u8>)
    ensures
        base64_text(bytes).len() == (bytes.len() + 2) / 3 * 4,
    decreases bytes.len(),
{
    if bytes.len() > 3 {
        base64_text_length(bytes.skip(3));
    }
}

} // verus!
