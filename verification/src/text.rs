//! Text: digits, hexadecimal, white space.

use vstd::prelude::*;
use vstd::utf8;

verus! {

/// The lower-case hexadecimal digit of a number below 16.
pub open spec fn hex_digit(n: int) -> char {
    if n < 10 {
        ('0' as int + n) as char
    } else {
        ('a' as int + n - 10) as char
    }
}

/// Two digits per byte, the high half first.
pub open spec fn hex_text(data: Seq<u8>) -> Seq<char> {
    Seq::new(
        2 * data.len(),
        |i: int|
            if i % 2 == 0 {
                hex_digit(data[i / 2] as int / 16)
            } else {
                hex_digit(data[i / 2] as int % 16)
            },
    )
}

/// What one hexadecimal digit, of either case, stands for.
pub open spec fn hex_value(c: u8) -> Option<int> {
    if 0x30 <= c <= 0x39 {
        Some(c - 0x30)
    } else if 0x41 <= c <= 0x46 {
        Some(c - 0x41 + 10)
    } else if 0x61 <= c <= 0x66 {
        Some(c - 0x61 + 10)
    } else {
        None
    }
}

/// The bytes that the digits in `text` stand for; nothing where their number is odd or
/// a character is no digit.
pub open spec fn hex_bytes(text: Seq<u8>) -> Option<Seq<u8>> {
    if text.len() % 2 == 0 && (forall|i: int|
        0 <= i < text.len() ==> hex_value(#[trigger] text[i]) is Some) {
        Some(
            Seq::new(
                text.len() / 2,
                |i: int| (hex_value(text[2 * i])->0 * 16 + hex_value(text[2 * i + 1])->0) as u8,
            ),
        )
    } else {
        None
    }
}

/// Hexadecimal text is read back as the bytes it was written from.
pub proof fn law_hex_roundtrip(data: Seq<u8>)
    ensures
        hex_bytes(utf8::encode_utf8(hex_text(data))) == Some(data),
        utf8::encode_utf8(hex_text(data)).len() == 2 * data.len(),
{
    let chars = hex_text(data);
    let text = utf8::encode_utf8(chars);
    assert(utf8::is_ascii_chars(chars)) by {
        assert forall|i: int| 0 <= i < chars.len() implies '\0' <= #[trigger] chars[i] <= '\u{7f}' by {
            let b = data[i / 2];
            assert(0 <= b as int / 16 < 16 && 0 <= b as int % 16 < 16);
        }
    }
    utf8::is_ascii_chars_encode_utf8(chars);
    assert forall|i: int| 0 <= i < data.len() implies hex_value(text[2 * i]) == Some(
        data[i] as int / 16,
    ) && hex_value(text[2 * i + 1]) == Some(data[i] as int % 16) by {
        let b = data[i];
        assert(chars[2 * i] == hex_digit(b as int / 16));
        assert(chars[2 * i + 1] == hex_digit(b as int % 16));
        assert(text[2 * i] == chars[2 * i] as u8);
        assert(text[2 * i + 1] == chars[2 * i + 1] as u8);
    }
    assert forall|i: int| 0 <= i < text.len() implies hex_value(#[trigger] text[i]) is Some by {
        let j = i / 2;
        assert(0 <= j < data.len());
        assert(i == 2 * j || i == 2 * j + 1);
    }
    assert(hex_bytes(text)->0 =~= data);
}

/// `String::from_iter`: the string of some characters.
#[verifier::external_body]
pub(crate) fn string_of(chars: &[char]) -> (s: String)
    ensures
        s@ == chars@,
{
    String::from_iter(chars)
}

/// A number in decimal digits, without leading zeros.
pub open spec fn decimal(n: nat) -> Seq<char>
    decreases n,
{
    if n < 10 {
        seq![('0' as int + n) as char]
    } else {
        decimal(n / 10).push(('0' as int + n % 10) as char)
    }
}

/// The digits of a number.
fn decimal_chars(n: u64) -> (out: Vec<char>)
    ensures
        out@ == decimal(n as nat),
    decreases n,
{
    let mut out: Vec<char> = if n < 10 {
        Vec::new()
    } else {
        decimal_chars(n / 10)
    };
    let d: u8 = (n % 10) as u8;
    out.push((0x30 + d) as char);
    assert(out@ =~= decimal(n as nat));
    out
}

/// Writes a number in decimal digits.
pub(crate) fn to_decimal(n: u64) -> (s: String)
    ensures
        s@ == decimal(n as nat),
{
    string_of(decimal_chars(n).as_slice())
}

/// An integer in decimal digits, behind a minus sign where it is negative.
pub open spec fn signed_decimal(n: int) -> Seq<char> {
    if n < 0 {
        "-"@ + decimal((-n) as nat)
    } else {
        decimal(n as nat)
    }
}

/// Writes an integer in decimal digits.
pub(crate) fn to_signed_decimal(n: i64) -> (s: String)
    ensures
        s@ == signed_decimal(n as int),
{
    if n < 0 {
        let below: i64 = -(n + 1);
        join("-", to_decimal(below as u64 + 1).as_str())
    } else {
        to_decimal(n as u64)
    }
}

/// `a` followed by `b`.
pub(crate) fn join(a: &str, b: &str) -> (s: String)
    ensures
        s@ == a@ + b@,
{
    let mut s: String = a.to_owned();
    s.append(b);
    s
}

/// Whether a character is white space.
pub open spec fn is_space(c: char) -> bool {
    ||| '\u{9}' <= c <= '\u{d}'
    ||| c == '\u{20}'
    ||| c == '\u{85}'
    ||| c == '\u{a0}'
    ||| c == '\u{1680}'
    ||| '\u{2000}' <= c <= '\u{200a}'
    ||| c == '\u{2028}'
    ||| c == '\u{2029}'
    ||| c == '\u{202f}'
    ||| c == '\u{205f}'
    ||| c == '\u{3000}'
}

/// `s` without the white space at its start.
pub open spec fn trim_start(s: Seq<char>) -> Seq<char>
    decreases s.len(),
{
    if s.len() > 0 && is_space(s[0]) {
        trim_start(s.subrange(1, s.len() as int))
    } else {
        s
    }
}

/// `s` without the white space at its end.
pub open spec fn trim_end(s: Seq<char>) -> Seq<char>
    decreases s.len(),
{
    if s.len() > 0 && is_space(s.last()) {
        trim_end(s.drop_last())
    } else {
        s
    }
}

/// Numbers in decimal digits, separated by commas.
pub open spec fn comma_list(data: Seq<u8>) -> Seq<char>
    decreases data.len(),
{
    if data.len() == 0 {
        Seq::empty()
    } else if data.len() == 1 {
        decimal(data[0] as nat)
    } else {
        comma_list(data.drop_last()) + ", "@ + decimal(data.last() as nat)
    }
}

/// Bytes as a list of numbers in brackets.
pub open spec fn byte_list(data: Seq<u8>) -> Seq<char> {
    "["@ + comma_list(data) + "]"@
}

/// Writes bytes as a list of numbers.
pub(crate) fn list_bytes(data: &[u8]) -> (s: String)
    ensures
        s@ == byte_list(data@),
{
    let mut s: String = "[".to_owned();
    let mut i: usize = 0;
    proof {
        assert(data@.subrange(0, 0) =~= Seq::empty());
        assert(s@ =~= "["@ + comma_list(data@.subrange(0, 0)));
    }
    while i < data.len()
        invariant
            i <= data@.len(),
            s@ == "["@ + comma_list(data@.subrange(0, i as int)),
        decreases data@.len() - i,
    {
        proof {
            let now = data@.subrange(0, i + 1);
            assert(now.drop_last() =~= data@.subrange(0, i as int));
            assert(now.last() == data@[i as int]);
        }
        if i > 0 {
            s.append(", ");
        }
        s.append(to_decimal(data[i] as u64).as_str());
        i = i + 1;
        assert(s@ =~= "["@ + comma_list(data@.subrange(0, i as int)));
    }
    assert(data@.subrange(0, i as int) =~= data@);
    s.append("]");
    s
}

/// The characters of a string that may be missing.
pub open spec fn text_view(s: Option<String>) -> Option<Seq<char>> {
    match s {
        Some(t) => Some(t@),
        None => None,
    }
}

/// The characters that some bytes are the UTF-8 encoding of.
pub open spec fn decoded(data: Seq<u8>) -> Option<Seq<char>> {
    if utf8::valid_utf8(data) {
        Some(utf8::decode_utf8(data))
    } else {
        None
    }
}

/// `std::str::from_utf8`: the text of valid UTF-8.
#[verifier::external_body]
pub(crate) fn from_utf8(data: &[u8]) -> (s: Option<String>)
    ensures
        text_view(s) == decoded(data@),
{
    std::str::from_utf8(data).ok().map(String::from)
}

/// The characters of a string.
pub(crate) fn chars_of(s: &str) -> (out: Vec<char>)
    ensures
        out@ == s@,
{
    let mut out: Vec<char> = Vec::new();
    for c in it: s.chars()
        invariant
            it.seq() == s@,
            out@ == s@.subrange(0, it.index()),
    {
        out.push(c);
        assert(out@ =~= s@.subrange(0, it.index() + 1));
    }
    assert(out@ =~= s@);
    out
}

fn space(c: char) -> (r: bool)
    ensures
        r == is_space(c),
{
    let n: u32 = c as u32;
    (0x9 <= n && n <= 0xd) || n == 0x20 || n == 0x85 || n == 0xa0 || n == 0x1680 || (0x2000 <= n && n
        <= 0x200a) || n == 0x2028 || n == 0x2029 || n == 0x202f || n == 0x205f || n == 0x3000
}

/// Where a text without surrounding white space starts and ends.
pub(crate) fn trim(line: &[char]) -> (r: (usize, usize))
    ensures
        r.0 <= r.1 <= line@.len(),
        line@.subrange(r.0 as int, r.1 as int) == trim_end(trim_start(line@)),
{
    let mut from: usize = 0;
    let n: usize = line.len();
    assert(line@.subrange(0, n as int) =~= line@);
    while from < n && space(line[from])
        invariant
            from <= n == line@.len(),
            trim_start(line@) == trim_start(line@.subrange(from as int, n as int)),
        decreases n - from,
    {
        let ghost rest = line@.subrange(from as int, n as int);
        assert(rest.subrange(1, rest.len() as int) =~= line@.subrange(from + 1, n as int));
        from = from + 1;
    }
    let ghost rest = line@.subrange(from as int, n as int);
    assert(trim_start(line@) == rest);
    let mut to: usize = n;
    while to > from && space(line[to - 1])
        invariant
            from <= to <= n == line@.len(),
            trim_end(rest) == trim_end(line@.subrange(from as int, to as int)),
        decreases to - from,
    {
        let ghost part = line@.subrange(from as int, to as int);
        assert(part.drop_last() =~= line@.subrange(from as int, to - 1));
        to = to - 1;
    }
    (from, to)
}

/// `hex::encode`: lower-case hexadecimal text, two digits per byte.
#[verifier::external_body]
pub(crate) fn hex_encode(data: &[u8]) -> (text: String)
    ensures
        text@ == hex_text(data@),
{
    hex::encode(data)
}

/// The text of an error.
pub open spec fn error_text<T>(r: Result<T, String>) -> Option<Seq<char>> {
    match r {
        Ok(_) => None,
        Err(e) => Some(e@),
    }
}

/// What `hex::decode` says of a text that is not hexadecimal.
pub uninterp spec fn hex_complaint(text: Seq<char>) -> Seq<char>;

/// What is wrong with a text that is to be hexadecimal, if anything.
pub open spec fn hex_fault(text: Seq<char>) -> Option<Seq<char>> {
    if hex_bytes(utf8::encode_utf8(text)) is None {
        Some(hex_complaint(text))
    } else {
        None
    }
}

/// `hex::decode`: the bytes that the digits stand for, or the crate's description of
/// what is wrong with the text.
#[verifier::external_body]
pub(crate) fn hex_decode(text: &str) -> (data: Result<Vec<u8>, String>)
    ensures
        crate::wire::ok_bytes(data) == hex_bytes(utf8::encode_utf8(text@)),
        error_text(data) == (if hex_bytes(utf8::encode_utf8(text@)) is None {
            Some(hex_complaint(text@))
        } else {
            None
        }),
{
    hex::decode(text).map_err(|e| e.to_string())
}

/// What the digits of a number stand for.
pub open spec fn digits_value(s: Seq<char>) -> int
    decreases s.len(),
{
    if s.len() == 0 {
        0
    } else {
        digits_value(s.drop_last()) * 10 + (s.last() as int - '0' as int)
    }
}

/// The digits of a number stand for it, and each of them is one of 0 to 9; the first is 0
/// for the number 0 alone.
pub proof fn law_decimal_digits(n: nat)
    ensures
        digits_value(decimal(n)) == n,
        decimal(n).len() > 0,
        forall|i: int| 0 <= i < decimal(n).len() ==> '0' <= #[trigger] decimal(n)[i] <= '9',
        decimal(n)[0] == '0' ==> n == 0,
    decreases n,
{
    reveal_with_fuel(digits_value, 2);
    if n < 10 {
        assert(decimal(n).drop_last() =~= Seq::<char>::empty());
    } else {
        law_decimal_digits(n / 10);
        assert(decimal(n).drop_last() =~= decimal(n / 10));
        assert forall|i: int| 0 <= i < decimal(n).len() implies '0' <= #[trigger] decimal(n)[i]
            <= '9' by {
            if i < decimal(n / 10).len() {
                assert(decimal(n)[i] == decimal(n / 10)[i]);
            }
        }
        assert(decimal(n)[0] == decimal(n / 10)[0]);
    }
}

/// Hexadecimal text has two digits for each byte, the one for its high half first, and its
/// letters are small.
pub proof fn law_hex_digits(data: Seq<u8>, i: int)
    requires
        0 <= i < data.len(),
    ensures
        hex_text(data).len() == 2 * data.len(),
        data[i] / 16 < 10 ==> hex_text(data)[2 * i] as int == 0x30 + data[i] / 16,
        data[i] / 16 >= 10 ==> hex_text(data)[2 * i] as int == 0x61 + data[i] / 16 - 10,
        data[i] % 16 < 10 ==> hex_text(data)[2 * i + 1] as int == 0x30 + data[i] % 16,
        data[i] % 16 >= 10 ==> hex_text(data)[2 * i + 1] as int == 0x61 + data[i] % 16 - 10,
{
    assert((2 * i) / 2 == i && (2 * i) % 2 == 0);
    assert((2 * i + 1) / 2 == i && (2 * i + 1) % 2 == 1);
}

/// Trimming takes white space away at both ends, and nothing else: what is left neither
/// begins nor ends with white space, and stands in the text with white space around it.
pub proof fn law_trimmed(s: Seq<char>)
    ensures
        ({
            let t = trim_end(trim_start(s));
            &&& (t.len() > 0 ==> !is_space(t[0]) && !is_space(t.last()))
            &&& exists|a: int, b: int|
                0 <= a <= b <= s.len() && t == #[trigger] s.subrange(a, b) && (forall|i: int|
                    0 <= i < a ==> is_space(#[trigger] s[i])) && (forall|i: int|
                    b <= i < s.len() ==> is_space(#[trigger] s[i]))
        }),
{
    let a = lemma_trim_start(s);
    let u = trim_start(s);
    let e = lemma_trim_end(u);
    let t = trim_end(u);
    let b = a + e;
    assert(t =~= s.subrange(a, b));
    assert forall|i: int| b <= i < s.len() implies is_space(#[trigger] s[i]) by {
        assert(u[i - a] == s[i]);
    }
    if t.len() > 0 {
        assert(t[0] == u[0]);
    }
}

proof fn lemma_trim_start(s: Seq<char>) -> (a: int)
    ensures
        0 <= a <= s.len(),
        trim_start(s) == s.subrange(a, s.len() as int),
        forall|i: int| 0 <= i < a ==> is_space(#[trigger] s[i]),
        a < s.len() ==> !is_space(s[a]),
    decreases s.len(),
{
    if s.len() > 0 && is_space(s[0]) {
        let rest = s.subrange(1, s.len() as int);
        let a = lemma_trim_start(rest);
        assert(rest.subrange(a, rest.len() as int) =~= s.subrange(a + 1, s.len() as int));
        assert forall|i: int| 0 <= i < a + 1 implies is_space(#[trigger] s[i]) by {
            if i > 0 {
                assert(rest[i - 1] == s[i]);
            }
        }
        a + 1
    } else {
        assert(s.subrange(0, s.len() as int) =~= s);
        0
    }
}

proof fn lemma_trim_end(s: Seq<char>) -> (b: int)
    ensures
        0 <= b <= s.len(),
        trim_end(s) == s.subrange(0, b),
        forall|i: int| b <= i < s.len() ==> is_space(#[trigger] s[i]),
        b > 0 ==> !is_space(s[b - 1]),
    decreases s.len(),
{
    if s.len() > 0 && is_space(s.last()) {
        let rest = s.drop_last();
        let b = lemma_trim_end(rest);
        assert(rest.subrange(0, b) =~= s.subrange(0, b));
        assert forall|i: int| b <= i < s.len() implies is_space(#[trigger] s[i]) by {
            if i < rest.len() {
                assert(rest[i] == s[i]);
            }
        }
        b
    } else {
        assert(s.subrange(0, s.len() as int) =~= s);
        s.len() as int
    }
}

} // verus!
