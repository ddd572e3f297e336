//! Byte and character encodings: hexadecimal, percent encoding, lossy UTF-8 and
//! JSON string literals.
use vstd::prelude::*;
use vstd::utf8::{decode_utf8, encode_utf8, is_ascii_chars, is_continuation_byte, valid_utf8};

verus! {

// ---------------------------------------------------------------------------
// Lossy UTF-8
// ---------------------------------------------------------------------------

/// The text that `String::from_utf8_lossy` makes of bytes that are not UTF-8.
pub uninterp spec fn utf8_repaired(bytes: Seq<u8>) -> Seq<char>;

/// The text of `bytes`: decoded where they are UTF-8, repaired where not.
pub open spec fn utf8_lossy(bytes: Seq<u8>) -> Seq<char> {
    if valid_utf8(bytes) {
        decode_utf8(bytes)
    } else {
        utf8_repaired(bytes)
    }
}

/// `String::from_utf8_lossy`. Bytes that are UTF-8 are decoded. What becomes of
/// other bytes is named and not spelled out.
#[verifier::external_body]
pub(crate) fn from_utf8_lossy(bytes: &[u8]) -> (r: String)
    ensures
        valid_utf8(bytes@) ==> r@ == decode_utf8(bytes@),
        !valid_utf8(bytes@) ==> r@ == utf8_repaired(bytes@),
{
    String::from_utf8_lossy(bytes).into_owned()
}

// ---------------------------------------------------------------------------
// Hexadecimal
// ---------------------------------------------------------------------------

/// The upper case hexadecimal digit for `d`, which is below sixteen.
pub open spec fn hex_digit(d: u8) -> char {
    if d < 10 {
        (48 + d) as char
    } else {
        (55 + d) as char
    }
}

/// The two upper case hexadecimal digits of each byte, in order.
pub open spec fn hex_text(bytes: Seq<u8>) -> Seq<char>
    decreases bytes.len(),
{
    if bytes.len() == 0 {
        seq![]
    } else {
        hex_text(bytes.drop_last()).push(hex_digit(bytes.last() / 16)).push(
            hex_digit(bytes.last() % 16),
        )
    }
}

/// The hexadecimal digit for `d`.
pub fn to_hex_digit(d: u8) -> (c: char)
    requires
        d < 16,
    ensures
        c == hex_digit(d),
{
    if d < 10 {
        (48 + d) as char
    } else {
        (55 + d) as char
    }
}

/// The two upper case hexadecimal digits of each byte, in order.
pub fn hex_upper(bytes: &[u8]) -> (r: String)
    ensures
        r@ == hex_text(bytes@),
{
    let mut r = String::new();
    let mut i: usize = 0;
    while i < bytes.len()
        invariant
            i <= bytes.len(),
            r@ == hex_text(bytes@.take(i as int)),
        decreases bytes.len() - i,
    {
        assert(bytes@.take(i + 1).drop_last() == bytes@.take(i as int));
        r.push(to_hex_digit(bytes[i] / 16));
        r.push(to_hex_digit(bytes[i] % 16));
        i += 1;
    }
    assert(bytes@.take(i as int) == bytes@);
    r
}

/// The value of a hexadecimal digit of either case.
pub open spec fn hex_value(c: char) -> Option<u8> {
    if '0' <= c && c <= '9' {
        Some((c as u32 - 48) as u8)
    } else if 'a' <= c && c <= 'f' {
        Some((c as u32 - 87) as u8)
    } else if 'A' <= c && c <= 'F' {
        Some((c as u32 - 55) as u8)
    } else {
        None
    }
}

/// What `u8::from_str_radix` with radix sixteen makes of two characters: two
/// digits, or a plus sign and one digit.
pub open spec fn pair_value(a: char, b: char) -> Option<u8> {
    match (hex_value(a), hex_value(b)) {
        (Some(x), Some(y)) => Some((16 * x + y) as u8),
        (None, Some(y)) => if a == '+' {
            Some(y)
        } else {
            None
        },
        _ => None,
    }
}

/// The value of a hexadecimal digit.
fn of_hex_digit(c: char) -> (r: Option<u8>)
    ensures
        r == hex_value(c),
        r matches Some(v) ==> v < 16,
{
    if '0' <= c && c <= '9' {
        Some(c as u8 - 48)
    } else if 'a' <= c && c <= 'f' {
        Some(c as u8 - 87)
    } else if 'A' <= c && c <= 'F' {
        Some(c as u8 - 55)
    } else {
        None
    }
}

/// `u8::from_str_radix` with radix sixteen on the two characters `a` and `b`.
pub fn of_hex_pair(a: char, b: char) -> (r: Option<u8>)
    ensures
        r == pair_value(a, b),
{
    match (of_hex_digit(a), of_hex_digit(b)) {
        (Some(x), Some(y)) => Some(16 * x + y),
        (None, Some(y)) => if a == '+' {
            Some(y)
        } else {
            None
        },
        _ => None,
    }
}

// ---------------------------------------------------------------------------
// Percent encoding
// ---------------------------------------------------------------------------

/// The bytes that stand for themselves in a URL.
pub open spec fn is_unreserved(b: u8) -> bool {
    ||| 65 <= b <= 90
    ||| 97 <= b <= 122
    ||| 48 <= b <= 57
    ||| b == 45
    ||| b == 95
    ||| b == 46
    ||| b == 126
}

/// The percent encoding of one byte.
pub open spec fn escaped_byte(b: u8) -> Seq<char> {
    if is_unreserved(b) {
        seq![b as char]
    } else {
        seq!['%', hex_digit(b / 16), hex_digit(b % 16)]
    }
}

/// The percent encoding of `bytes`.
pub open spec fn url_encoded(bytes: Seq<u8>) -> Seq<char>
    decreases bytes.len(),
{
    if bytes.len() == 0 {
        seq![]
    } else {
        url_encoded(bytes.drop_last()) + escaped_byte(bytes.last())
    }
}

/// The percent encoding of the UTF-8 bytes of `s`.
pub fn urlencode(s: &str) -> (r: String)
    ensures
        r@ == url_encoded(encode_utf8(s@)),
{
    let bytes = s.as_bytes();
    let mut out = String::new();
    let mut i: usize = 0;
    while i < bytes.len()
        invariant
            i <= bytes.len(),
            out@ == url_encoded(bytes@.take(i as int)),
        decreases bytes.len() - i,
    {
        let b = bytes[i];
        let ghost before = out@;
        if (65 <= b && b <= 90) || (97 <= b && b <= 122) || (48 <= b && b <= 57) || b == 45 || b
            == 95 || b == 46 || b == 126 {
            out.push(b as char);
        } else {
            out.push('%');
            out.push(to_hex_digit(b / 16));
            out.push(to_hex_digit(b % 16));
        }
        assert(out@ =~= before + escaped_byte(b));
        i += 1;
        assert(bytes@.take(i as int).drop_last() =~= bytes@.take(i - 1));
    }
    assert(bytes@.take(i as int) =~= bytes@);
    out
}

/// The bytes that a percent-encoded form value stands for: `%` and two
/// hexadecimal digits are a byte, `+` is a space, anything else is itself.
pub open spec fn url_decoded(b: Seq<u8>) -> Seq<u8>
    decreases b.len(),
{
    if b.len() == 0 {
        seq![]
    } else if b[0] == 37 && b.len() > 2 && pair_value(b[1] as char, b[2] as char) is Some {
        seq![pair_value(b[1] as char, b[2] as char)->0] + url_decoded(b.skip(3))
    } else if b[0] == 43 {
        seq![32u8] + url_decoded(b.skip(1))
    } else {
        seq![b[0]] + url_decoded(b.skip(1))
    }
}

/// No `%` is followed by two bytes that cut a character in half.
pub open spec fn is_decodable(s: Seq<char>) -> bool {
    let b = encode_utf8(s);
    forall|i: int|
        0 <= i && i + 3 < b.len() && #[trigger] b[i] == 37 ==> !is_continuation_byte(b[i + 3])
}

/// Whether `urldecode` takes `s`.
pub fn decodable(s: &str) -> (r: bool)
    ensures
        r == is_decodable(s@),
{
    let b = s.as_bytes();
    let mut i: usize = 0;
    while b.len() - i > 3
        invariant
            i <= b.len(),
            b@ == encode_utf8(s@),
            forall|j: int|
                0 <= j < i && j + 3 < b@.len() && #[trigger] b@[j] == 37 ==> !is_continuation_byte(
                    b@[j + 3],
                ),
        decreases b.len() - i,
    {
        if b[i] == 37 && 0x80 <= b[i + 3] && b[i + 3] <= 0xbf {
            assert(encode_utf8(s@)[i as int] == 37);
            assert(is_continuation_byte(encode_utf8(s@)[i + 3]));
            return false;
        }
        i += 1;
    }
    true
}

/// The text that a percent-encoded form value stands for.
pub fn urldecode(s: &str) -> (r: String)
    requires
        is_decodable(s@),
    ensures
        r@ == utf8_lossy(url_decoded(encode_utf8(s@))),
{
    let b = s.as_bytes();
    let mut out: Vec<u8> = Vec::new();
    let mut i: usize = 0;
    assert(b@.skip(0) =~= b@);
    assert(out@ + url_decoded(b@) =~= url_decoded(b@));
    while i < b.len()
        invariant
            i <= b.len(),
            out@ + url_decoded(b@.skip(i as int)) == url_decoded(b@),
        decreases b.len() - i,
    {
        let ghost rest = b@.skip(i as int);
        let ghost before = out@;
        assert(rest.skip(1) =~= b@.skip(i + 1));
        if b[i] == 37 && b.len() - i > 2 {
            assert(rest.skip(3) =~= b@.skip(i + 3));
            match of_hex_pair(b[i + 1] as char, b[i + 2] as char) {
                Some(v) => {
                    out.push(v);
                    i += 3;
                },
                None => {
                    out.push(37);
                    i += 1;
                },
            }
        } else if b[i] == 43 {
            out.push(32);
            i += 1;
        } else {
            out.push(b[i]);
            i += 1;
        }
        assert(before + url_decoded(rest) =~= out@ + url_decoded(b@.skip(i as int)));
    }
    assert(out@ + url_decoded(b@.skip(i as int)) =~= out@);
    from_utf8_lossy(out.as_slice())
}

proof fn lemma_hex_pair(b: u8)
    ensures
        pair_value(hex_digit(b / 16), hex_digit(b % 16)) == Some(b),
        hex_digit(b / 16) as u32 <= 0x7f,
        hex_digit(b % 16) as u32 <= 0x7f,
{
}

/// A percent-encoded text is ASCII and free of the characters that structure a
/// form or a query.
pub proof fn lemma_url_encoded_ascii(bytes: Seq<u8>)
    ensures
        is_ascii_chars(url_encoded(bytes)),
        forall|i: int|
            0 <= i < url_encoded(bytes).len() ==> !seq!['&', '=', '?', ';', ' '].contains(
                #[trigger] url_encoded(bytes)[i],
            ),
    decreases bytes.len(),
{
    if bytes.len() > 0 {
        lemma_url_encoded_ascii(bytes.drop_last());
        lemma_hex_pair(bytes.last());
    }
}

/// The bytes of an ASCII text.
spec fn ascii_bytes(s: Seq<char>) -> Seq<u8> {
    Seq::new(s.len(), |i: int| s[i] as u8)
}

proof fn lemma_decode_append(x: Seq<u8>, y: Seq<u8>, done: Seq<u8>)
    requires
        x == ascii_bytes(url_encoded(done)),
    ensures
        url_decoded(x + y) == done + url_decoded(y),
    decreases done.len(),
{
    if done.len() == 0 {
        assert(x + y =~= y);
        assert(done + url_decoded(y) =~= url_decoded(y));
    } else {
        let init = done.drop_last();
        let b = done.last();
        let e = ascii_bytes(escaped_byte(b));
        let x0 = ascii_bytes(url_encoded(init));
        lemma_hex_pair(b);
        assert(x =~= x0 + e);
        assert(x + y =~= x0 + (e + y));
        lemma_decode_append(x0, e + y, init);
        let t = e + y;
        if is_unreserved(b) {
            assert(t.skip(1) =~= y);
            assert(t[0] == b);
        } else {
            assert(t.skip(3) =~= y);
            assert(t[0] == 37);
            assert(t[1] as char == hex_digit(b / 16));
            assert(t[2] as char == hex_digit(b % 16));
        }
        assert(url_decoded(t) =~= seq![b] + url_decoded(y));
        assert(done + url_decoded(y) =~= init + (seq![b] + url_decoded(y)));
    }
}

/// Decoding undoes encoding: whatever text is percent-encoded, the encoded form
/// can be decoded and gives that text back.
pub proof fn law_urldecode_undoes_urlencode(s: Seq<char>)
    ensures
        is_decodable(url_encoded(encode_utf8(s))),
        url_decoded(encode_utf8(url_encoded(encode_utf8(s)))) == encode_utf8(s),
        utf8_lossy(url_decoded(encode_utf8(url_encoded(encode_utf8(s))))) == s,
{
    broadcast use vstd::utf8::group_utf8_lib;

    let bytes = encode_utf8(s);
    let e = url_encoded(bytes);
    lemma_url_encoded_ascii(bytes);
    vstd::utf8::is_ascii_chars_encode_utf8(e);
    let x = encode_utf8(e);
    assert(x =~= ascii_bytes(e));
    assert(x + Seq::<u8>::empty() =~= x);
    lemma_decode_append(x, seq![], bytes);
    assert(bytes + url_decoded(Seq::<u8>::empty()) =~= bytes);
    assert forall|i: int| 0 <= i && i + 3 < x.len() && #[trigger] x[i] == 37 implies !is_continuation_byte(
        x[i + 3],
    ) by {
        assert(x[i + 3] == e[i + 3] as u8);
    }
    vstd::utf8::encode_utf8_valid_utf8(s);
    vstd::utf8::encode_utf8_decode_utf8(s);
}

// ---------------------------------------------------------------------------
// JSON string literals
// ---------------------------------------------------------------------------

/// How one character stands in a JSON string literal inside a page: quotes and
/// backslashes are escaped, and so are the angle brackets of HTML.
pub open spec fn json_char(c: char) -> Seq<char> {
    if c == '"' {
        "\\\""@
    } else if c == '\\' {
        "\\\\"@
    } else if c == '<' {
        "\\u003c"@
    } else if c == '>' {
        "\\u003e"@
    } else {
        seq![c]
    }
}

/// The characters of `s`, each as it stands in a literal.
pub open spec fn json_escaped(s: Seq<char>) -> Seq<char>
    decreases s.len(),
{
    if s.len() == 0 {
        seq![]
    } else {
        json_escaped(s.drop_last()) + json_char(s.last())
    }
}

/// The JSON string literal for `s`.
pub open spec fn json_literal(s: Seq<char>) -> Seq<char> {
    seq!['"'] + json_escaped(s) + seq!['"']
}

/// A JSON string literal that can stand inside a page.
pub fn json_string(s: &str) -> (r: String)
    ensures
        r@ == json_literal(s@),
{
    let v = crate::text::chars_of(s);
    let mut out = String::new();
    out.push('"');
    let mut i: usize = 0;
    assert(out@ =~= seq!['"'] + json_escaped(v@.take(0)));
    while i < v.len()
        invariant
            i <= v.len(),
            out@ == seq!['"'] + json_escaped(v@.take(i as int)),
        decreases v.len() - i,
    {
        let c = v[i];
        let ghost before = out@;
        if c == '"' {
            out.append("\\\"");
        } else if c == '\\' {
            out.append("\\\\");
        } else if c == '<' {
            out.append("\\u003c");
        } else if c == '>' {
            out.append("\\u003e");
        } else {
            out.push(c);
        }
        assert(out@ =~= before + json_char(c));
        i += 1;
        assert(v@.take(i as int).drop_last() =~= v@.take(i - 1));
        assert(out@ =~= seq!['"'] + json_escaped(v@.take(i as int)));
    }
    assert(v@.take(i as int) =~= s@);
    out.push('"');
    out
}

/// A literal holds no angle bracket, and no quote but the two that enclose it
/// and those that directly follow a backslash.
pub proof fn law_json_string_is_inert(s: Seq<char>)
    ensures
        forall|i: int|
            0 <= i < json_literal(s).len() ==> #[trigger] json_literal(s)[i] != '<'
                && json_literal(s)[i] != '>',
        forall|i: int|
            0 < i < json_literal(s).len() - 1 && #[trigger] json_literal(s)[i] == '"'
                ==> json_literal(s)[i - 1] == '\\',
{
    lemma_json_escaped(s);
    let e = json_escaped(s);
    let l = json_literal(s);
    assert forall|i: int| 0 <= i < l.len() implies #[trigger] l[i] != '<' && l[i] != '>' by {
        if 0 < i < l.len() - 1 {
            assert(l[i] == e[i - 1]);
        }
    }
    assert forall|i: int| 0 < i < l.len() - 1 && #[trigger] l[i] == '"' implies l[i - 1]
        == '\\' by {
        assert(l[i] == e[i - 1]);
        assert(l[i - 1] == e[i - 2]);
    }
}

proof fn lemma_json_char(c: char)
    ensures
        json_char(c).len() > 0,
        json_char(c)[0] != '"',
        forall|i: int|
            0 <= i < json_char(c).len() ==> #[trigger] json_char(c)[i] != '<' && json_char(c)[i]
                != '>',
        forall|i: int|
            0 < i < json_char(c).len() && #[trigger] json_char(c)[i] == '"' ==> json_char(c)[i - 1]
                == '\\',
{
    reveal_strlit("\\\"");
    reveal_strlit("\\\\");
    reveal_strlit("\\u003c");
    reveal_strlit("\\u003e");
}

proof fn lemma_json_escaped(s: Seq<char>)
    ensures
        forall|i: int|
            0 <= i < json_escaped(s).len() ==> #[trigger] json_escaped(s)[i] != '<'
                && json_escaped(s)[i] != '>',
        forall|i: int|
            0 <= i < json_escaped(s).len() && #[trigger] json_escaped(s)[i] == '"' ==> i > 0
                && json_escaped(s)[i - 1] == '\\',
    decreases s.len(),
{
    if s.len() > 0 {
        lemma_json_escaped(s.drop_last());
        lemma_json_char(s.last());
        let a = json_escaped(s.drop_last());
        let b = json_char(s.last());
        let e = json_escaped(s);
        assert forall|i: int| 0 <= i < e.len() implies #[trigger] e[i] != '<' && e[i] != '>' by {
            if i >= a.len() {
                assert(e[i] == b[i - a.len()]);
            }
        }
        assert forall|i: int| 0 <= i < e.len() && #[trigger] e[i] == '"' implies i > 0 && e[i
            - 1] == '\\' by {
            if i >= a.len() {
                assert(e[i] == b[i - a.len()]);
                assert(e[i - 1] == b[i - 1 - a.len()]);
            }
        }
    }
}

/// The character that stands for six bits in base64.
pub open spec fn base64_char(n: int) -> char {
    if n < 26 {
        (65 + n) as char
    } else if n < 52 {
        (71 + n) as char
    } else if n < 62 {
        (n - 4) as char
    } else if n == 62 {
        '+'
    } else {
        '/'
    }
}

/// The base64 text of some bytes, in the standard alphabet and padded: four
/// characters for each three bytes.
pub open spec fn base64_text(b: Seq<u8>) -> Seq<char>
    decreases b.len(),
{
    if b.len() == 0 {
        seq![]
    } else if b.len() == 1 {
        seq![base64_char(b[0] as int / 4), base64_char(b[0] as int % 4 * 16), '=', '=']
    } else if b.len() == 2 {
        seq![
            base64_char(b[0] as int / 4),
            base64_char(b[0] as int % 4 * 16 + b[1] as int / 16),
            base64_char(b[1] as int % 16 * 4),
            '=',
        ]
    } else {
        seq![
            base64_char(b[0] as int / 4),
            base64_char(b[0] as int % 4 * 16 + b[1] as int / 16),
            base64_char(b[1] as int % 16 * 4 + b[2] as int / 64),
            base64_char(b[2] as int % 64),
        ] + base64_text(b.skip(3))
    }
}

/// `base64::engine::general_purpose::STANDARD.encode`: the base64 text of the
/// bytes, as RFC 4648 has it, with padding. It panics where the text would be
/// longer than memory can hold.
#[verifier::external_body]
pub(crate) fn to_base64(bytes: &[u8]) -> (r: String)
    requires
        bytes.len() <= usize::MAX / 4,
    ensures
        r@ == base64_text(bytes@),
{
    base64::Engine::encode(&base64::engine::general_purpose::STANDARD, bytes)
}

/// Each byte is written as two digits in its place: the first for its sixteens, the
/// second for its ones.
pub proof fn law_hex_digits_of_each_byte(bytes: Seq<u8>, i: int)
    requires
        0 <= i < bytes.len(),
    ensures
        hex_text(bytes).len() == 2 * bytes.len(),
        hex_text(bytes)[2 * i] == "0123456789ABCDEF"@[bytes[i] as int / 16],
        hex_text(bytes)[2 * i + 1] == "0123456789ABCDEF"@[bytes[i] as int % 16],
    decreases bytes.len(),
{
    reveal_strlit("0123456789ABCDEF");
    lemma_hex_len(bytes);
    lemma_hex_len(bytes.drop_last());
    if i < bytes.len() - 1 {
        law_hex_digits_of_each_byte(bytes.drop_last(), i);
    }
}

proof fn lemma_hex_len(bytes: Seq<u8>)
    ensures
        hex_text(bytes).len() == 2 * bytes.len(),
    decreases bytes.len(),
{
    if bytes.len() > 0 {
        lemma_hex_len(bytes.drop_last());
    }
}

/// In a form value a plus sign is a space, a percent sign with two digits is the byte
/// that they write, and every other byte is itself.
pub proof fn law_form_value_byte_by_byte(b: u8, rest: Seq<u8>)
    ensures
        url_decoded(seq![43u8] + rest) == seq![32u8] + url_decoded(rest),
        b != 37 && b != 43 ==> url_decoded(seq![b] + rest) == seq![b] + url_decoded(rest),
        url_decoded(
            seq![
                37u8,
                "0123456789ABCDEF"@[b as int / 16] as u8,
                "0123456789ABCDEF"@[b as int % 16] as u8,
            ] + rest,
        ) == seq![b] + url_decoded(rest),
        url_decoded(Seq::<u8>::empty()) == Seq::<u8>::empty(),
{
    reveal_strlit("0123456789ABCDEF");
    lemma_hex_pair(b);
    assert((seq![43u8] + rest).skip(1) =~= rest);
    assert((seq![b] + rest).skip(1) =~= rest);
    let x = "0123456789ABCDEF"@[b as int / 16];
    let y = "0123456789ABCDEF"@[b as int % 16];
    assert(x == hex_digit(b / 16) && y == hex_digit(b % 16));
    let e = seq![37u8, x as u8, y as u8] + rest;
    assert(e.skip(3) =~= rest);
    assert(e[1] as char == x && e[2] as char == y);
}

proof fn lemma_json_plain(s: Seq<char>)
    requires
        forall|i: int|
            0 <= i < s.len() ==> #[trigger] s[i] != '"' && s[i] != '\\' && s[i] != '<' && s[i]
                != '>',
    ensures
        json_escaped(s) == s,
    decreases s.len(),
{
    if s.len() > 0 {
        lemma_json_plain(s.drop_last());
        assert(s.drop_last() + seq![s.last()] =~= s);
    }
}

/// A text without quotes, backslashes and angle brackets stands in its literal as it
/// is.
pub proof fn law_plain_text_in_json(s: Seq<char>)
    requires
        forall|i: int|
            0 <= i < s.len() ==> #[trigger] s[i] != '"' && s[i] != '\\' && s[i] != '<' && s[i]
                != '>',
    ensures
        json_literal(s) == seq!['"'] + s + seq!['"'],
{
    lemma_json_plain(s);
}

/// In an address letters, digits and four marks stand for themselves, and every other
/// byte is written as a percent sign and two digits.
pub proof fn law_address_byte_by_byte(bytes: Seq<u8>, b: u8)
    ensures
        (65 <= b <= 90 || 97 <= b <= 122 || 48 <= b <= 57 || b == '-' as u8 || b == '_' as u8 || b
            == '.' as u8 || b == '~' as u8) ==> url_encoded(bytes.push(b)) == url_encoded(
            bytes,
        ).push(b as char),
        !(65 <= b <= 90 || 97 <= b <= 122 || 48 <= b <= 57 || b == '-' as u8 || b == '_' as u8 || b
            == '.' as u8 || b == '~' as u8) ==> url_encoded(bytes.push(b)) == url_encoded(bytes)
            + seq![
            '%',
            "0123456789ABCDEF"@[b as int / 16],
            "0123456789ABCDEF"@[b as int % 16],
        ],
        url_encoded(Seq::<u8>::empty()).len() == 0,
{
    reveal_strlit("0123456789ABCDEF");
    assert(bytes.push(b).drop_last() =~= bytes);
    assert(bytes.push(b).last() == b);
    assert(hex_digit(b / 16) == "0123456789ABCDEF"@[b as int / 16]);
    assert(hex_digit(b % 16) == "0123456789ABCDEF"@[b as int % 16]);
    if is_unreserved(b) {
        assert(url_encoded(bytes) + seq![b as char] =~= url_encoded(bytes).push(b as char));
    }
}

/// Digits of a percent sign may be in either case; a percent sign without two of them
/// stands for itself.
pub proof fn law_percent_signs_in_a_form(b: u8, rest: Seq<u8>, x: u8)
    ensures
        url_decoded(
            seq![
                37u8,
                "0123456789abcdef"@[b as int / 16] as u8,
                "0123456789abcdef"@[b as int % 16] as u8,
            ] + rest,
        ) == seq![b] + url_decoded(rest),
        !(48 <= x <= 57 || 65 <= x <= 70 || 97 <= x <= 102 || x == 43) ==> url_decoded(
            seq![37u8, x] + rest,
        ) == seq![37u8] + url_decoded(seq![x] + rest),
        url_decoded(seq![37u8]) == seq![37u8],
{
    reveal_strlit("0123456789abcdef");
    let h = "0123456789abcdef"@[b as int / 16] as u8;
    let l = "0123456789abcdef"@[b as int % 16] as u8;
    let s = seq![37u8, h, l] + rest;
    assert(s[0] == 37 && s[1] == h && s[2] == l);
    assert(hex_value(h as char) == Some(b / 16));
    assert(hex_value(l as char) == Some(b % 16));
    assert(pair_value(h as char, l as char) == Some(b));
    assert(s.skip(3) =~= rest);
    let t = seq![37u8, x] + rest;
    assert(t[0] == 37 && t[1] == x);
    assert(t.skip(1) =~= seq![x] + rest);
    let one = seq![37u8];
    assert(one[0] == 37);
    assert(one.skip(1) =~= Seq::<u8>::empty());
    assert(url_decoded(Seq::<u8>::empty()) =~= Seq::<u8>::empty());
    assert(url_decoded(one) =~= seq![37u8]);
}

/// In JSON a quotation mark and a backslash stand behind a backslash, and angle brackets
/// are written by their numbers.
pub proof fn law_json_text_char_by_char(s: Seq<char>)
    ensures
        json_literal(s.push('"')) == json_literal(s).drop_last() + seq!['\\', '"'] + seq!['"'],
        json_literal(s.push('\\')) == json_literal(s).drop_last() + seq!['\\', '\\'] + seq!['"'],
        json_literal(s.push('<')) == json_literal(s).drop_last() + "\\u003c"@ + seq!['"'],
        json_literal(s.push('>')) == json_literal(s).drop_last() + "\\u003e"@ + seq!['"'],
{
    reveal_strlit("\\\"");
    reveal_strlit("\\\\");
    assert("\\\""@ =~= seq!['\\', '"']);
    assert("\\\\"@ =~= seq!['\\', '\\']);
    lemma_json_push(s, '"');
    lemma_json_push(s, '\\');
    lemma_json_push(s, '<');
    lemma_json_push(s, '>');
}

proof fn lemma_json_push(s: Seq<char>, c: char)
    ensures
        json_literal(s.push(c)) == json_literal(s).drop_last() + json_char(c) + seq!['"'],
{
    assert(s.push(c).drop_last() =~= s);
    assert(s.push(c).last() == c);
    assert(json_literal(s).drop_last() =~= seq!['"'] + json_escaped(s));
    assert(json_literal(s.push(c)) =~= json_literal(s).drop_last() + json_char(c) + seq!['"']);
}

} // verus!
