//! The checkpoint document codec.
//!
//! The checkpoint store persists a collection as one JSON document of the
//! shape `{"metadata":{alias:{"title":t,"checksum":c},...}}`.  Both
//! directions are defined here over character sequences: the exact document
//! a collection serializes to, and the parse of a candidate document, which
//! accepts interleaved whitespace, the two metadata keys in either order,
//! the standard string escapes (including `\uXXXX` with surrogate pairs),
//! and rejects everything else.

use crate::metadata::{Metadata, MetadataV};
use vstd::prelude::*;

verus! {

/// The characters of the key `metadata`.
pub open spec fn key_metadata() -> Seq<char> {
    seq!['m', 'e', 't', 'a', 'd', 'a', 't', 'a']
}

/// The characters of the key `title`.
pub open spec fn key_title() -> Seq<char> {
    seq!['t', 'i', 't', 'l', 'e']
}

/// The characters of the key `checksum`.
pub open spec fn key_checksum() -> Seq<char> {
    seq!['c', 'h', 'e', 'c', 'k', 's', 'u', 'm']
}

/// The lowercase hex digit for a value below sixteen.
pub open spec fn hex_digit(d: int) -> char {
    if d == 0 {
        '0'
    } else if d == 1 {
        '1'
    } else if d == 2 {
        '2'
    } else if d == 3 {
        '3'
    } else if d == 4 {
        '4'
    } else if d == 5 {
        '5'
    } else if d == 6 {
        '6'
    } else if d == 7 {
        '7'
    } else if d == 8 {
        '8'
    } else if d == 9 {
        '9'
    } else if d == 10 {
        'a'
    } else if d == 11 {
        'b'
    } else if d == 12 {
        'c'
    } else if d == 13 {
        'd'
    } else if d == 14 {
        'e'
    } else {
        'f'
    }
}

/// How one character appears inside a serialized JSON string: itself, a
/// two-character escape, or `\u00XX` for the remaining control characters.
pub open spec fn json_escape_char(c: char) -> Seq<char> {
    let u = c as u32;
    if u == 0x22 {
        seq!['\\', '"']
    } else if u == 0x5C {
        seq!['\\', '\\']
    } else if u == 0x08 {
        seq!['\\', 'b']
    } else if u == 0x0C {
        seq!['\\', 'f']
    } else if u == 0x0A {
        seq!['\\', 'n']
    } else if u == 0x0D {
        seq!['\\', 'r']
    } else if u == 0x09 {
        seq!['\\', 't']
    } else if u < 0x20 {
        seq!['\\', 'u', '0', '0', hex_digit(u as int / 16), hex_digit(u as int % 16)]
    } else {
        seq![c]
    }
}

/// A whole string's characters, escaped.
pub open spec fn json_escape(s: Seq<char>) -> Seq<char>
    decreases s.len(),
{
    if s.len() == 0 {
        Seq::empty()
    } else {
        json_escape(s.drop_last()) + json_escape_char(s.last())
    }
}

/// A serialized JSON string: the escaped characters between quotes.
pub open spec fn json_string(s: Seq<char>) -> Seq<char> {
    seq!['"'] + json_escape(s) + seq!['"']
}

/// A serialized metadata value: `{"title":t,"checksum":c}`.
pub open spec fn json_metadata(m: MetadataV) -> Seq<char> {
    seq!['{'] + json_string(key_title()) + seq![':'] + json_string(m.title) + seq![',']
        + json_string(key_checksum()) + seq![':'] + json_string(m.checksum) + seq!['}']
}

/// One serialized collection entry: `alias:{...}`.
pub open spec fn json_entry(e: (Seq<char>, MetadataV)) -> Seq<char> {
    json_string(e.0) + seq![':'] + json_metadata(e.1)
}

/// The serialized entries, comma-separated, in stored order.
pub open spec fn json_entries(s: Seq<(Seq<char>, MetadataV)>) -> Seq<char>
    decreases s.len(),
{
    if s.len() == 0 {
        Seq::empty()
    } else if s.len() == 1 {
        json_entry(s[0])
    } else {
        json_entries(s.drop_last()) + seq![','] + json_entry(s.last())
    }
}

/// The whole checkpoint document for a collection's entries.
pub open spec fn json_collection(s: Seq<(Seq<char>, MetadataV)>) -> Seq<char> {
    seq!['{'] + json_string(key_metadata()) + seq![':'] + seq!['{'] + json_entries(s) + seq!['}']
        + seq!['}']
}

/// JSON whitespace: space, newline, tab, carriage return.
pub open spec fn is_ws(c: char) -> bool {
    c == ' ' || c == '\n' || c == '\t' || c == '\r'
}

/// The first position at or after `i` that does not hold whitespace.
pub open spec fn skip_ws(s: Seq<char>, i: int) -> int
    decreases s.len() - i,
    when 0 <= i <= s.len()
{
    if i < s.len() && is_ws(s[i]) {
        skip_ws(s, i + 1)
    } else {
        i
    }
}

/// `skip_ws` never moves backwards nor past the end.
pub proof fn lemma_skip_ws_bounds(s: Seq<char>, i: int)
    requires
        0 <= i <= s.len(),
    ensures
        i <= skip_ws(s, i) <= s.len(),
    decreases s.len() - i,
{
    if i < s.len() && is_ws(s[i]) {
        lemma_skip_ws_bounds(s, i + 1);
    }
}

/// The value of a hex digit character, upper or lower case.
pub open spec fn hex_val(c: char) -> Option<u32> {
    let u = c as u32;
    if 0x30 <= u && u <= 0x39 {
        Some((u - 0x30) as u32)
    } else if 0x61 <= u && u <= 0x66 {
        Some((u - 0x57) as u32)
    } else if 0x41 <= u && u <= 0x46 {
        Some((u - 0x37) as u32)
    } else {
        None
    }
}

/// The value of the four hex digits at `i`, when all four are there.
pub open spec fn hex4(s: Seq<char>, i: int) -> Option<u32> {
    if 0 <= i && i + 4 <= s.len() {
        match (hex_val(s[i]), hex_val(s[i + 1]), hex_val(s[i + 2]), hex_val(s[i + 3])) {
            (Some(a), Some(b), Some(c), Some(d)) => Some(
                ((a as int) * 4096 + (b as int) * 256 + (c as int) * 16 + (d as int)) as u32,
            ),
            _ => None,
        }
    } else {
        None
    }
}

/// The character encoded by `\uXXXX` at `i` (after the `\u`): a scalar
/// directly, or a surrogate pair combined into one supplementary character.
pub open spec fn parse_unicode(s: Seq<char>, i: int) -> Option<(char, int)> {
    match hex4(s, i) {
        None => None,
        Some(n) => {
            if n < 0xD800 || n >= 0xE000 {
                Some((n as char, i + 4))
            } else if n < 0xDC00 {
                if i + 6 <= s.len() && s[i + 4] == '\\' && s[i + 5] == 'u' {
                    match hex4(s, i + 6) {
                        None => None,
                        Some(lo) => {
                            if 0xDC00 <= lo && lo < 0xE000 {
                                Some(
                                    (
                                        ((0x10000 + (n as int - 0xD800) * 0x400 + (lo as int
                                            - 0xDC00)) as u32) as char,
                                        i + 10,
                                    ),
                                )
                            } else {
                                None
                            }
                        },
                    }
                } else {
                    None
                }
            } else {
                None
            }
        },
    }
}

/// The character named by the escape starting at `i` (just after the
/// backslash), and the position after it.
pub open spec fn parse_escape(s: Seq<char>, i: int) -> Option<(char, int)> {
    if !(0 <= i && i < s.len()) {
        None
    } else {
        let c = s[i];
        if c == '"' {
            Some(('"', i + 1))
        } else if c == '\\' {
            Some(('\\', i + 1))
        } else if c == '/' {
            Some(('/', i + 1))
        } else if c == 'b' {
            Some(('\u{8}', i + 1))
        } else if c == 'f' {
            Some(('\u{c}', i + 1))
        } else if c == 'n' {
            Some(('\n', i + 1))
        } else if c == 'r' {
            Some(('\r', i + 1))
        } else if c == 't' {
            Some(('\t', i + 1))
        } else if c == 'u' {
            parse_unicode(s, i + 1)
        } else {
            None
        }
    }
}

/// A successful escape always advances and stays inside the input.
pub proof fn lemma_parse_escape_bounds(s: Seq<char>, i: int)
    ensures
        match parse_escape(s, i) {
            Some(p) => i < p.1 <= s.len(),
            None => true,
        },
{
}

/// The body of a JSON string from `i` (just after the opening quote) to its
/// closing quote: the decoded characters appended to `acc`, and the
/// position after the closing quote.  Unescaped control characters are
/// rejected.
pub open spec fn parse_string_chars(s: Seq<char>, i: int, acc: Seq<char>) -> Option<
    (Seq<char>, int),
>
    decreases s.len() - i,
    when 0 <= i <= s.len()
    via parse_string_chars_dec
{
    if i >= s.len() {
        None
    } else {
        let c = s[i];
        if c == '"' {
            Some((acc, i + 1))
        } else if c == '\\' {
            match parse_escape(s, i + 1) {
                None => None,
                Some(p) => parse_string_chars(s, p.1, acc.push(p.0)),
            }
        } else if (c as u32) < 0x20 {
            None
        } else {
            parse_string_chars(s, i + 1, acc.push(c))
        }
    }
}

#[via_fn]
proof fn parse_string_chars_dec(s: Seq<char>, i: int, acc: Seq<char>) {
    if 0 <= i && i < s.len() && s[i] == '\\' {
        lemma_parse_escape_bounds(s, i + 1);
    }
}

/// A successful string body parse always advances and stays inside the
/// input.
pub proof fn lemma_parse_string_chars_bounds(s: Seq<char>, i: int, acc: Seq<char>)
    requires
        0 <= i <= s.len(),
    ensures
        match parse_string_chars(s, i, acc) {
            Some(p) => i < p.1 <= s.len(),
            None => true,
        },
    decreases s.len() - i,
{
    if i < s.len() {
        let c = s[i];
        if c == '\\' {
            lemma_parse_escape_bounds(s, i + 1);
            match parse_escape(s, i + 1) {
                None => {},
                Some(p) => {
                    lemma_parse_string_chars_bounds(s, p.1, acc.push(p.0));
                },
            }
        } else if c != '"' && (c as u32) >= 0x20 {
            lemma_parse_string_chars_bounds(s, i + 1, acc.push(c));
        }
    }
}

/// A whole JSON string with optional leading whitespace: the decoded
/// characters and the position after the closing quote.
pub open spec fn parse_ws_string(s: Seq<char>, i: int) -> Option<(Seq<char>, int)> {
    if !(0 <= i && i <= s.len()) {
        None
    } else {
        let j = skip_ws(s, i);
        if j < s.len() && s[j] == '"' {
            parse_string_chars(s, j + 1, Seq::empty())
        } else {
            None
        }
    }
}

/// A successful string parse always advances and stays inside the input.
pub proof fn lemma_parse_ws_string_bounds(s: Seq<char>, i: int)
    ensures
        match parse_ws_string(s, i) {
            Some(p) => i < p.1 <= s.len(),
            None => true,
        },
{
    if 0 <= i && i <= s.len() {
        lemma_skip_ws_bounds(s, i);
        let j = skip_ws(s, i);
        if j < s.len() && s[j] == '"' {
            lemma_parse_string_chars_bounds(s, j + 1, Seq::empty());
        }
    }
}

/// The position after `c`, expected as the next non-whitespace character.
pub open spec fn expect_char(s: Seq<char>, i: int, c: char) -> Option<int> {
    if !(0 <= i && i <= s.len()) {
        None
    } else {
        let j = skip_ws(s, i);
        if j < s.len() && s[j] == c {
            Some(j + 1)
        } else {
            None
        }
    }
}

/// A successfully expected character always advances and stays inside the
/// input.
pub proof fn lemma_expect_char_bounds(s: Seq<char>, i: int, c: char)
    ensures
        match expect_char(s, i, c) {
            Some(j) => i < j <= s.len(),
            None => true,
        },
{
    if 0 <= i && i <= s.len() {
        lemma_skip_ws_bounds(s, i);
    }
}

/// The metadata value named by the two keys, which may come in either
/// order; anything else is rejected.
pub open spec fn metadata_from_pairs(
    k1: Seq<char>,
    v1: Seq<char>,
    k2: Seq<char>,
    v2: Seq<char>,
) -> Option<MetadataV> {
    if k1 == key_title() && k2 == key_checksum() {
        Some(MetadataV { title: v1, checksum: v2 })
    } else if k1 == key_checksum() && k2 == key_title() {
        Some(MetadataV { title: v2, checksum: v1 })
    } else {
        None
    }
}

/// A metadata object starting exactly at `i`: `{` then the two string
/// pairs, comma-separated, then `}`, whitespace allowed between tokens.
pub open spec fn parse_metadata_body(s: Seq<char>, i: int) -> Option<(MetadataV, int)> {
    if !(0 <= i && i < s.len() && s[i] == '{') {
        None
    } else {
        match parse_ws_string(s, i + 1) {
            None => None,
            Some((k1, j1)) => match expect_char(s, j1, ':') {
                None => None,
                Some(j2) => match parse_ws_string(s, j2) {
                    None => None,
                    Some((v1, j3)) => match expect_char(s, j3, ',') {
                        None => None,
                        Some(j4) => match parse_ws_string(s, j4) {
                            None => None,
                            Some((k2, j5)) => match expect_char(s, j5, ':') {
                                None => None,
                                Some(j6) => match parse_ws_string(s, j6) {
                                    None => None,
                                    Some((v2, j7)) => match expect_char(s, j7, '}') {
                                        None => None,
                                        Some(j8) => match metadata_from_pairs(k1, v1, k2, v2) {
                                            None => None,
                                            Some(m) => Some((m, j8)),
                                        },
                                    },
                                },
                            },
                        },
                    },
                },
            },
        }
    }
}

/// A successful metadata object parse always advances and stays inside the
/// input.
pub proof fn lemma_parse_metadata_body_bounds(s: Seq<char>, i: int)
    ensures
        match parse_metadata_body(s, i) {
            Some(p) => i < p.1 <= s.len(),
            None => true,
        },
{
    if 0 <= i && i < s.len() && s[i] == '{' {
        lemma_parse_ws_string_bounds(s, i + 1);
        match parse_ws_string(s, i + 1) {
            None => {},
            Some((k1, j1)) => {
                lemma_expect_char_bounds(s, j1, ':');
                match expect_char(s, j1, ':') {
                    None => {},
                    Some(j2) => {
                        lemma_parse_ws_string_bounds(s, j2);
                        match parse_ws_string(s, j2) {
                            None => {},
                            Some((v1, j3)) => {
                                lemma_expect_char_bounds(s, j3, ',');
                                match expect_char(s, j3, ',') {
                                    None => {},
                                    Some(j4) => {
                                        lemma_parse_ws_string_bounds(s, j4);
                                        match parse_ws_string(s, j4) {
                                            None => {},
                                            Some((k2, j5)) => {
                                                lemma_expect_char_bounds(s, j5, ':');
                                                match expect_char(s, j5, ':') {
                                                    None => {},
                                                    Some(j6) => {
                                                        lemma_parse_ws_string_bounds(s, j6);
                                                        match parse_ws_string(s, j6) {
                                                            None => {},
                                                            Some((v2, j7)) => {
                                                                lemma_expect_char_bounds(
                                                                    s,
                                                                    j7,
                                                                    '}',
                                                                );
                                                            },
                                                        }
                                                    },
                                                }
                                            },
                                        }
                                    },
                                }
                            },
                        }
                    },
                }
            },
        }
    }
}

/// The comma-separated collection entries from `i` on, appended to `acc`;
/// stops before the character that ends the list.
pub open spec fn parse_entries(
    s: Seq<char>,
    i: int,
    acc: Seq<(Seq<char>, MetadataV)>,
) -> Option<(Seq<(Seq<char>, MetadataV)>, int)>
    decreases s.len() - i,
    when 0 <= i <= s.len()
    via parse_entries_dec
{
    match parse_ws_string(s, i) {
        None => None,
        Some((alias, j1)) => match expect_char(s, j1, ':') {
            None => None,
            Some(j2) => {
                let j3 = skip_ws(s, j2);
                match parse_metadata_body(s, j3) {
                    None => None,
                    Some((m, j4)) => {
                        let acc2 = acc.push((alias, m));
                        let j5 = skip_ws(s, j4);
                        if j5 < s.len() && s[j5] == ',' {
                            parse_entries(s, j5 + 1, acc2)
                        } else {
                            Some((acc2, j5))
                        }
                    },
                }
            },
        },
    }
}

#[via_fn]
proof fn parse_entries_dec(s: Seq<char>, i: int, acc: Seq<(Seq<char>, MetadataV)>) {
    if 0 <= i && i <= s.len() {
        lemma_parse_ws_string_bounds(s, i);
        match parse_ws_string(s, i) {
            None => {},
            Some((alias, j1)) => {
                lemma_expect_char_bounds(s, j1, ':');
                match expect_char(s, j1, ':') {
                    None => {},
                    Some(j2) => {
                        lemma_skip_ws_bounds(s, j2);
                        let j3 = skip_ws(s, j2);
                        lemma_parse_metadata_body_bounds(s, j3);
                        match parse_metadata_body(s, j3) {
                            None => {},
                            Some((m, j4)) => {
                                lemma_skip_ws_bounds(s, j4);
                            },
                        }
                    },
                }
            },
        }
    }
}

/// The document's tail after the inner object: the outer `}` and trailing
/// whitespace up to the very end.
pub open spec fn parse_end(s: Seq<char>, i: int, es: Seq<(Seq<char>, MetadataV)>) -> Option<
    Seq<(Seq<char>, MetadataV)>,
> {
    match expect_char(s, i, '}') {
        None => None,
        Some(j) => {
            if skip_ws(s, j) == s.len() {
                Some(es)
            } else {
                None
            }
        },
    }
}

/// The parse of a whole checkpoint document: the entries of the inner
/// object, in document order, or nothing when the text is not such a
/// document.
pub open spec fn parse_collection_chars(s: Seq<char>) -> Option<Seq<(Seq<char>, MetadataV)>> {
    match expect_char(s, 0, '{') {
        None => None,
        Some(i1) => match parse_ws_string(s, i1) {
            None => None,
            Some((k, i2)) => {
                if k != key_metadata() {
                    None
                } else {
                    match expect_char(s, i2, ':') {
                        None => None,
                        Some(i3) => match expect_char(s, i3, '{') {
                            None => None,
                            Some(i4) => {
                                let j = skip_ws(s, i4);
                                if j < s.len() && s[j] == '}' {
                                    parse_end(s, j + 1, Seq::empty())
                                } else {
                                    match parse_entries(s, i4, Seq::empty()) {
                                        None => None,
                                        Some((es, j2)) => match expect_char(s, j2, '}') {
                                            None => None,
                                            Some(j3) => parse_end(s, j3, es),
                                        },
                                    }
                                }
                            },
                        },
                    }
                }
            },
        },
    }
}

/// Reading a hex digit back gives the value it was written from.
proof fn lemma_hex_val_digit(d: int)
    requires
        0 <= d < 16,
    ensures
        hex_val(hex_digit(d)) == Some(d as u32),
{
}

/// `json_escape` can be peeled from the front as well as from the back.
proof fn lemma_json_escape_front(t: Seq<char>)
    requires
        t.len() > 0,
    ensures
        json_escape(t) == json_escape_char(t[0]) + json_escape(t.drop_first()),
    decreases t.len(),
{
    if t.len() == 1 {
        assert(t.drop_last() =~= Seq::<char>::empty());
        assert(t.drop_first() =~= Seq::<char>::empty());
        assert(json_escape(t) =~= json_escape_char(t[0]) + json_escape(t.drop_first()));
    } else {
        let u = t.drop_last();
        lemma_json_escape_front(u);
        assert(u[0] == t[0]);
        assert(u.drop_first() =~= t.drop_first().drop_last());
        assert(t.drop_first().last() == t.last());
        assert(json_escape(t) == json_escape(u) + json_escape_char(t.last()));
        assert(json_escape(t.drop_first()) == json_escape(t.drop_first().drop_last())
            + json_escape_char(t.last()));
        assert((json_escape_char(t[0]) + json_escape(u.drop_first())) + json_escape_char(t.last())
            =~= json_escape_char(t[0]) + (json_escape(t.drop_first().drop_last())
            + json_escape_char(t.last())));
    }
}

/// Characters with equal scalar values are the same character.
proof fn lemma_char_eq(c: char, d: char)
    requires
        c as u32 == d as u32,
    ensures
        c == d,
{
    vstd::utf8::char_u32_cast(c, c as u32);
    vstd::utf8::char_u32_cast(d, c as u32);
}

/// One step of the round trip: an escape sequence the serializer wrote for
/// a character is decoded back to exactly that character.
#[verifier::rlimit(50)]
proof fn lemma_parse_escape_round_trip(s: Seq<char>, i: int, c: char)
    requires
        json_escape_char(c).len() > 1,
        0 <= i,
        i + json_escape_char(c).len() <= s.len(),
        forall|k: int|
            0 <= k < json_escape_char(c).len() ==> s[i + k] == #[trigger] json_escape_char(c)[k],
    ensures
        s[i] == '\\',
        parse_escape(s, i + 1) == Some((c, i + json_escape_char(c).len())),
{
    let e = json_escape_char(c);
    let u = c as u32;
    assert(s[i + 0] == e[0]);
    assert(s[i + 1] == e[1]);
    if u == 0x22 {
        lemma_char_eq(c, '"');
    } else if u == 0x5C {
        lemma_char_eq(c, '\\');
    } else if u == 0x08 {
        lemma_char_eq(c, '\u{8}');
    } else if u == 0x0C {
        lemma_char_eq(c, '\u{c}');
    } else if u == 0x0A {
        lemma_char_eq(c, '\n');
    } else if u == 0x0D {
        lemma_char_eq(c, '\r');
    } else if u == 0x09 {
        lemma_char_eq(c, '\t');
    } else {
        assert(u < 0x20);
        assert(s[i + 2] == e[2]);
        assert(s[i + 3] == e[3]);
        assert(s[i + 4] == e[4]);
        assert(s[i + 5] == e[5]);
        assert(s[i + 2] == '0');
        assert(s[i + 3] == '0');
        assert(s[i + 4] == hex_digit(u as int / 16));
        assert(s[i + 5] == hex_digit(u as int % 16));
        lemma_hex_val_digit(u as int / 16);
        lemma_hex_val_digit(u as int % 16);
        assert(hex_val('0') == Some(0u32));
        assert(hex4(s, i + 2) == Some(u)) by {
            assert(hex_val(s[i + 2]) == Some(0u32));
            assert(hex_val(s[i + 3]) == Some(0u32));
            assert(hex_val(s[i + 4]) == Some((u as int / 16) as u32));
            assert(hex_val(s[i + 5]) == Some((u as int % 16) as u32));
            assert((u as int / 16) * 16 + (u as int % 16) == u as int);
        }
        vstd::utf8::char_u32_cast(c, u);
        assert(parse_unicode(s, i + 2) == Some((c, i + 6)));
    }
}

/// The string body parser reads back exactly the characters the serializer
/// escaped: fed the escaped text, the closing quote and anything after, it
/// returns the original characters and stops right after the quote.
proof fn lemma_parse_string_round_trip(
    pre: Seq<char>,
    t: Seq<char>,
    rest: Seq<char>,
    acc: Seq<char>,
)
    ensures
        parse_string_chars(pre + (json_escape(t) + seq!['"'] + rest), pre.len() as int, acc)
            == Some((acc + t, pre.len() as int + json_escape(t).len() + 1)),
    decreases t.len(),
{
    let body = json_escape(t) + seq!['"'] + rest;
    let s = pre + body;
    let i = pre.len() as int;
    if t.len() == 0 {
        assert(json_escape(t) =~= Seq::<char>::empty());
        assert(s[i] == body[0]);
        assert(body[0] == '"');
        assert(acc + t =~= acc);
    } else {
        lemma_json_escape_front(t);
        let c = t[0];
        let e = json_escape_char(c);
        let t2 = t.drop_first();
        let body2 = json_escape(t2) + seq!['"'] + rest;
        assert(body =~= e + body2);
        assert forall|k: int| 0 <= k < e.len() implies s[i + k] == e[k] by {
            assert(s[i + k] == body[k]);
            assert(body[k] == (e + body2)[k]);
        }
        lemma_parse_string_round_trip(pre + e, t2, rest, acc.push(c));
        assert(s =~= (pre + e) + body2);
        assert(acc.push(c) + t2 =~= acc + t);
        if e.len() > 1 {
            lemma_parse_escape_round_trip(s, i, c);
            assert(parse_string_chars(s, i, acc) == parse_string_chars(
                s,
                i + e.len(),
                acc.push(c),
            ));
        } else {
            assert(e == seq![c]);
            assert(s[i] == c);
            assert(c != '"' && c != '\\' && (c as u32) >= 0x20);
        }
    }
}

/// A serialized string standing at the parse position is read back whole.
proof fn lemma_parse_ws_string_round_trip(pre: Seq<char>, t: Seq<char>, rest: Seq<char>)
    ensures
        parse_ws_string(pre + (json_string(t) + rest), pre.len() as int) == Some(
            (t, pre.len() as int + json_string(t).len()),
        ),
{
    let body = json_string(t) + rest;
    let s = pre + body;
    let i = pre.len() as int;
    assert(s[i] == body[0]);
    assert(body[0] == json_string(t)[0]);
    assert(json_string(t)[0] == '"');
    assert(!is_ws('"'));
    assert(skip_ws(s, i) == i);
    assert(s =~= (pre + seq!['"']) + (json_escape(t) + seq!['"'] + rest));
    lemma_parse_string_round_trip(pre + seq!['"'], t, rest, Seq::empty());
    assert(Seq::<char>::empty() + t =~= t);
}

/// A single non-whitespace character standing at the parse position is the
/// token `expect_char` consumes.
proof fn lemma_expect_token(pre: Seq<char>, c: char, rest: Seq<char>)
    requires
        !is_ws(c),
    ensures
        expect_char(pre + (seq![c] + rest), pre.len() as int, c) == Some(pre.len() as int + 1),
{
    let body = seq![c] + rest;
    let s = pre + body;
    let i = pre.len() as int;
    assert(s[i] == body[0]);
    assert(body[0] == c);
    assert(skip_ws(s, i) == i);
}

/// A serialized metadata object standing at the parse position is read back
/// as the value it was written from.
#[verifier::rlimit(100)]
proof fn lemma_parse_metadata_round_trip(pre: Seq<char>, m: MetadataV, rest: Seq<char>)
    ensures
        parse_metadata_body(pre + (json_metadata(m) + rest), pre.len() as int) == Some(
            (m, pre.len() as int + json_metadata(m).len()),
        ),
{
    let jm = json_metadata(m);
    let s = pre + (jm + rest);
    let i = pre.len() as int;
    let k1 = json_string(key_title());
    let v1 = json_string(m.title);
    let k2 = json_string(key_checksum());
    let v2 = json_string(m.checksum);
    let r4 = seq!['}'] + rest;
    let r3 = v2 + r4;
    let r3b = seq![':'] + r3;
    let r2 = k2 + r3b;
    let r2b = seq![','] + r2;
    let r1 = v1 + r2b;
    let r1b = seq![':'] + r1;
    let r0 = k1 + r1b;
    assert(jm + rest =~= seq!['{'] + r0);
    assert(s[i] == (seq!['{'] + r0)[0]);
    assert(s[i] == '{');

    let p1 = pre + seq!['{'];
    assert(s =~= p1 + (k1 + r1b));
    lemma_parse_ws_string_round_trip(p1, key_title(), r1b);
    let q1 = p1.len() as int + k1.len();
    assert(parse_ws_string(s, i + 1) == Some((key_title(), q1)));

    let p2 = p1 + k1;
    assert(s =~= p2 + (seq![':'] + r1));
    assert(!is_ws(':'));
    lemma_expect_token(p2, ':', r1);
    assert(expect_char(s, q1, ':') == Some(q1 + 1));

    let p3 = p2 + seq![':'];
    assert(s =~= p3 + (v1 + r2b));
    lemma_parse_ws_string_round_trip(p3, m.title, r2b);
    let q2 = p3.len() as int + v1.len();
    assert(parse_ws_string(s, q1 + 1) == Some((m.title, q2)));

    let p4 = p3 + v1;
    assert(s =~= p4 + (seq![','] + r2));
    assert(!is_ws(','));
    lemma_expect_token(p4, ',', r2);
    assert(expect_char(s, q2, ',') == Some(q2 + 1));

    let p5 = p4 + seq![','];
    assert(s =~= p5 + (k2 + r3b));
    lemma_parse_ws_string_round_trip(p5, key_checksum(), r3b);
    let q3 = p5.len() as int + k2.len();
    assert(parse_ws_string(s, q2 + 1) == Some((key_checksum(), q3)));

    let p6 = p5 + k2;
    assert(s =~= p6 + (seq![':'] + r3));
    lemma_expect_token(p6, ':', r3);
    assert(expect_char(s, q3, ':') == Some(q3 + 1));

    let p7 = p6 + seq![':'];
    assert(s =~= p7 + (v2 + r4));
    lemma_parse_ws_string_round_trip(p7, m.checksum, r4);
    let q4 = p7.len() as int + v2.len();
    assert(parse_ws_string(s, q3 + 1) == Some((m.checksum, q4)));

    let p8 = p7 + v2;
    assert(s =~= p8 + (seq!['}'] + rest));
    assert(!is_ws('}'));
    lemma_expect_token(p8, '}', rest);
    assert(expect_char(s, q4, '}') == Some(q4 + 1));

    assert(metadata_from_pairs(key_title(), m.title, key_checksum(), m.checksum) == Some(m));
    assert(q4 + 1 == i + jm.len());
}

/// `json_entries` can be peeled from the front as well as from the back.
proof fn lemma_json_entries_front(es: Seq<(Seq<char>, MetadataV)>)
    requires
        es.len() > 0,
    ensures
        json_entries(es) == json_entry(es[0]) + (
        if es.len() == 1 {
            Seq::<char>::empty()
        } else {
            seq![','] + json_entries(es.drop_first())
        }),
    decreases es.len(),
{
    if es.len() == 1 {
        assert(json_entry(es[0]) + Seq::<char>::empty() =~= json_entry(es[0]));
    } else if es.len() == 2 {
        let u = es.drop_last();
        assert(u.len() == 1);
        assert(u[0] == es[0]);
        assert(es.drop_first().len() == 1);
        assert(es.drop_first()[0] == es[1]);
        assert(es.last() == es[1]);
        assert(json_entries(u) + seq![','] + json_entry(es[1]) =~= json_entry(es[0]) + (seq![',']
            + json_entries(es.drop_first())));
    } else {
        let u = es.drop_last();
        lemma_json_entries_front(u);
        assert(u[0] == es[0]);
        let d = es.drop_first();
        assert(d.len() >= 2);
        assert(d.drop_last() =~= u.drop_first());
        assert(d.last() == es.last());
        assert(json_entries(d) == json_entries(u.drop_first()) + seq![','] + json_entry(
            es.last(),
        ));
        assert((json_entry(es[0]) + (seq![','] + json_entries(u.drop_first()))) + seq![',']
            + json_entry(es.last()) =~= json_entry(es[0]) + (seq![','] + (json_entries(
            u.drop_first(),
        ) + seq![','] + json_entry(es.last()))));
    }
}

/// One serialized entry standing at the parse position is read back as its
/// alias, separator and metadata, ending right after the metadata object.
#[verifier::rlimit(100)]
proof fn lemma_parse_entry_round_trip(
    pre: Seq<char>,
    e0: (Seq<char>, MetadataV),
    after: Seq<char>,
)
    ensures
        ({
            let s = pre + (json_entry(e0) + after);
            let i = pre.len() as int;
            let q1 = i + json_string(e0.0).len();
            let q2 = i + json_entry(e0).len();
            &&& parse_ws_string(s, i) == Some((e0.0, q1))
            &&& expect_char(s, q1, ':') == Some(q1 + 1)
            &&& skip_ws(s, q1 + 1) == q1 + 1
            &&& parse_metadata_body(s, q1 + 1) == Some((e0.1, q2))
        }),
{
    let s = pre + (json_entry(e0) + after);
    let i = pre.len() as int;
    let ka = json_string(e0.0);
    let jm = json_metadata(e0.1);
    assert(json_entry(e0) == ka + seq![':'] + jm);
    assert(s =~= pre + (ka + (seq![':'] + (jm + after))));
    lemma_parse_ws_string_round_trip(pre, e0.0, seq![':'] + (jm + after));
    let q1 = i + ka.len();
    assert(parse_ws_string(s, i) == Some((e0.0, q1)));

    let p2 = pre + ka;
    assert(s =~= p2 + (seq![':'] + (jm + after)));
    assert(!is_ws(':'));
    lemma_expect_token(p2, ':', jm + after);
    assert(expect_char(s, q1, ':') == Some(q1 + 1));

    let p3 = p2 + seq![':'];
    assert(s =~= p3 + (jm + after));
    assert(s[q1 + 1] == (jm + after)[0]);
    assert(jm[0] == '{');
    assert(skip_ws(s, q1 + 1) == q1 + 1);
    lemma_parse_metadata_round_trip(p3, e0.1, after);
    assert(parse_metadata_body(s, q1 + 1) == Some((e0.1, q1 + 1 + jm.len())));
    assert(q1 + 1 + jm.len() == i + json_entry(e0).len());
}

/// A serialized run of entries standing at the parse position is read back
/// whole: the parser consumes every entry and stops at the character that
/// ends the list.
#[verifier::rlimit(100)]
proof fn lemma_parse_entries_round_trip(
    pre: Seq<char>,
    es: Seq<(Seq<char>, MetadataV)>,
    rest: Seq<char>,
    acc: Seq<(Seq<char>, MetadataV)>,
)
    requires
        es.len() > 0,
        rest.len() > 0,
        !is_ws(rest[0]),
        rest[0] != ',',
    ensures
        parse_entries(pre + (json_entries(es) + rest), pre.len() as int, acc) == Some(
            (acc + es, pre.len() as int + json_entries(es).len()),
        ),
    decreases es.len(),
{
    let s = pre + (json_entries(es) + rest);
    let i = pre.len() as int;
    lemma_json_entries_front(es);
    let e0 = es[0];
    if es.len() == 1 {
        assert(json_entries(es) + rest =~= json_entry(e0) + rest);
        lemma_parse_entry_round_trip(pre, e0, rest);
        let q2 = i + json_entry(e0).len();
        assert(s =~= (pre + json_entry(e0)) + rest);
        assert(s[q2] == rest[0]);
        assert(skip_ws(s, q2) == q2);
        assert((e0.0, e0.1) == e0);
        assert(acc.push(e0) =~= acc + es);
        assert(q2 == i + json_entries(es).len());
    } else {
        let es2 = es.drop_first();
        let tail = seq![','] + (json_entries(es2) + rest);
        assert(json_entries(es) + rest =~= json_entry(e0) + tail);
        lemma_parse_entry_round_trip(pre, e0, tail);
        let q2 = i + json_entry(e0).len();

        let p4 = pre + json_entry(e0);
        assert(s =~= p4 + (seq![','] + (json_entries(es2) + rest)));
        assert(s[q2] == ',');
        assert(!is_ws(','));
        assert(skip_ws(s, q2) == q2);

        let p5 = p4 + seq![','];
        assert(s =~= p5 + (json_entries(es2) + rest));
        lemma_parse_entries_round_trip(p5, es2, rest, acc.push((e0.0, e0.1)));
        assert((e0.0, e0.1) == e0);
        assert(acc.push(e0) + es2 =~= acc + es);
        assert(q2 + 1 + json_entries(es2).len() == i + json_entries(es).len());
    }
}

/// Round trip of the checkpoint document: the document serialized from a
/// run of entries parses back to exactly those entries, in order.
#[verifier::rlimit(100)]
pub proof fn lemma_document_round_trip(es: Seq<(Seq<char>, MetadataV)>)
    ensures
        parse_collection_chars(json_collection(es)) == Some(es),
{
    let km = json_string(key_metadata());
    let je = json_entries(es);
    let s = json_collection(es);
    let empty = Seq::<char>::empty();
    let r0 = km + (seq![':'] + (seq!['{'] + (je + (seq!['}'] + seq!['}']))));
    assert(s =~= empty + (seq!['{'] + r0));
    assert(!is_ws('{'));
    lemma_expect_token(empty, '{', r0);
    assert(expect_char(s, 0, '{') == Some(1int));

    let p1 = empty + seq!['{'];
    assert(s =~= p1 + (km + (seq![':'] + (seq!['{'] + (je + (seq!['}'] + seq!['}']))))));
    lemma_parse_ws_string_round_trip(
        p1,
        key_metadata(),
        seq![':'] + (seq!['{'] + (je + (seq!['}'] + seq!['}']))),
    );
    let i2: int = 1 + km.len() as int;
    assert(parse_ws_string(s, 1) == Some((key_metadata(), i2)));

    let p2 = p1 + km;
    assert(s =~= p2 + (seq![':'] + (seq!['{'] + (je + (seq!['}'] + seq!['}'])))));
    assert(!is_ws(':'));
    lemma_expect_token(p2, ':', seq!['{'] + (je + (seq!['}'] + seq!['}'])));
    assert(expect_char(s, i2, ':') == Some(i2 + 1));

    let p3 = p2 + seq![':'];
    assert(s =~= p3 + (seq!['{'] + (je + (seq!['}'] + seq!['}']))));
    lemma_expect_token(p3, '{', je + (seq!['}'] + seq!['}']));
    assert(expect_char(s, i2 + 1, '{') == Some(i2 + 2));

    let i4: int = i2 + 2;
    let p4 = p3 + seq!['{'];
    assert(s =~= p4 + (je + (seq!['}'] + seq!['}'])));
    if es.len() == 0 {
        assert(je =~= empty);
        assert(s =~= p4 + (seq!['}'] + (seq!['}'] + empty)));
        assert(s[i4] == '}');
        assert(!is_ws('}'));
        assert(skip_ws(s, i4) == i4);
        lemma_expect_token(p4, '}', seq!['}'] + empty);
        let p5 = p4 + seq!['}'];
        assert(s =~= p5 + (seq!['}'] + empty));
        lemma_expect_token(p5, '}', empty);
        assert(expect_char(s, i4 + 1, '}') == Some(i4 + 2));
        assert(i4 + 2 == s.len());
        assert(skip_ws(s, s.len() as int) == s.len());
        assert(es =~= Seq::<(Seq<char>, MetadataV)>::empty());
    } else {
        lemma_json_entries_front(es);
        assert(je[0] == json_entry(es[0])[0]);
        assert(json_entry(es[0])[0] == json_string(es[0].0)[0]);
        assert(json_string(es[0].0)[0] == '"');
        assert(s[i4] == (je + (seq!['}'] + seq!['}']))[0]);
        assert(s[i4] == '"');
        assert(!is_ws('"'));
        assert(skip_ws(s, i4) == i4);
        assert('"' as u32 == 0x22);
        assert('}' as u32 == 0x7D);
        assert(s[i4] != '}');

        let rest2 = seq!['}'] + seq!['}'];
        assert(s =~= p4 + (je + rest2));
        assert(rest2[0] == '}');
        lemma_parse_entries_round_trip(p4, es, rest2, Seq::empty());
        let j2: int = i4 + je.len();
        assert(parse_entries(s, i4, Seq::empty()) == Some(
            (Seq::<(Seq<char>, MetadataV)>::empty() + es, j2),
        ));
        assert(Seq::<(Seq<char>, MetadataV)>::empty() + es =~= es);

        let p5 = p4 + je;
        assert(s =~= p5 + (seq!['}'] + (seq!['}'] + empty)));
        lemma_expect_token(p5, '}', seq!['}'] + empty);
        assert(expect_char(s, j2, '}') == Some(j2 + 1));

        let p6 = p5 + seq!['}'];
        assert(s =~= p6 + (seq!['}'] + empty));
        lemma_expect_token(p6, '}', empty);
        assert(expect_char(s, j2 + 1, '}') == Some(j2 + 2));
        assert(j2 + 2 == s.len());
        assert(skip_ws(s, s.len() as int) == s.len());
    }
}

/// Relies on `String::from_iter` over `core::iter`: collecting a vector of
/// chars yields the string of exactly those chars.
#[verifier::external_body]
pub fn chars_to_string(v: Vec<char>) -> (s: String)
    ensures
        s@ == v@,
{
    v.into_iter().collect()
}

/// The lowercase hex digit for a value below sixteen.
fn hex_char(d: u32) -> (c: char)
    requires
        d < 16,
    ensures
        c == hex_digit(d as int),
{
    if d == 0 {
        '0'
    } else if d == 1 {
        '1'
    } else if d == 2 {
        '2'
    } else if d == 3 {
        '3'
    } else if d == 4 {
        '4'
    } else if d == 5 {
        '5'
    } else if d == 6 {
        '6'
    } else if d == 7 {
        '7'
    } else if d == 8 {
        '8'
    } else if d == 9 {
        '9'
    } else if d == 10 {
        'a'
    } else if d == 11 {
        'b'
    } else if d == 12 {
        'c'
    } else if d == 13 {
        'd'
    } else if d == 14 {
        'e'
    } else {
        'f'
    }
}

/// Append one character's escaped form.
fn push_escaped_char(out: &mut Vec<char>, c: char)
    ensures
        final(out)@ == old(out)@ + json_escape_char(c),
{
    let u = c as u32;
    if u == 0x22 {
        out.push('\\');
        out.push('"');
    } else if u == 0x5C {
        out.push('\\');
        out.push('\\');
    } else if u == 0x08 {
        out.push('\\');
        out.push('b');
    } else if u == 0x0C {
        out.push('\\');
        out.push('f');
    } else if u == 0x0A {
        out.push('\\');
        out.push('n');
    } else if u == 0x0D {
        out.push('\\');
        out.push('r');
    } else if u == 0x09 {
        out.push('\\');
        out.push('t');
    } else if u < 0x20 {
        out.push('\\');
        out.push('u');
        out.push('0');
        out.push('0');
        out.push(hex_char(u / 16));
        out.push(hex_char(u % 16));
    } else {
        out.push(c);
    }
    proof {
        assert(final(out)@ =~= old(out)@ + json_escape_char(c));
    }
}

/// Append a string in its serialized JSON form.
pub fn push_json_string(out: &mut Vec<char>, s: &str)
    ensures
        final(out)@ == old(out)@ + json_string(s@),
{
    out.push('"');
    let n = s.unicode_len();
    let mut i: usize = 0;
    while i < n
        invariant
            n == s@.len(),
            i <= n,
            out@ == old(out)@ + seq!['"'] + json_escape(s@.take(i as int)),
        decreases n - i,
    {
        let c = s.get_char(i);
        push_escaped_char(out, c);
        proof {
            assert(s@.take(i + 1 as int).drop_last() =~= s@.take(i as int));
            assert(s@.take(i + 1 as int).last() == s@[i as int]);
            assert(json_escape(s@.take(i + 1 as int)) == json_escape(s@.take(i as int))
                + json_escape_char(s@[i as int]));
        }
        i += 1;
    }
    out.push('"');
    proof {
        assert(s@.take(n as int) =~= s@);
        assert(final(out)@ =~= old(out)@ + json_string(s@));
    }
}

/// Append a metadata value in its serialized form.
pub fn push_json_metadata(out: &mut Vec<char>, m: &Metadata)
    ensures
        final(out)@ == old(out)@ + json_metadata(m@),
{
    out.push('{');
    push_json_string(out, "title");
    proof {
        reveal_strlit("title");
        assert("title"@ =~= key_title());
    }
    out.push(':');
    push_json_string(out, m.title.as_str());
    out.push(',');
    push_json_string(out, "checksum");
    proof {
        reveal_strlit("checksum");
        assert("checksum"@ =~= key_checksum());
    }
    out.push(':');
    push_json_string(out, m.checksum.as_str());
    out.push('}');
    proof {
        assert(final(out)@ =~= old(out)@ + json_metadata(m@));
    }
}

/// Relies on `char::from_u32` of core: it returns the character of the
/// given scalar value, and `None` exactly on surrogates and values above
/// the scalar range.
pub assume_specification[ char::from_u32 ](i: u32) -> (r: Option<char>)
    ensures
        r is Some <==> (i < 0xD800 || (0xE000 <= i && i <= 0x10FFFF)),
        r is Some ==> r->0 as u32 == i,
;

/// The characters of a string, as a vector.
pub fn str_chars(s: &str) -> (v: Vec<char>)
    ensures
        v@ == s@,
{
    let n = s.unicode_len();
    let mut v: Vec<char> = Vec::new();
    let mut i: usize = 0;
    while i < n
        invariant
            n == s@.len(),
            i <= n,
            v@ == s@.take(i as int),
        decreases n - i,
    {
        v.push(s.get_char(i));
        proof {
            assert(v@ =~= s@.take(i + 1 as int));
        }
        i += 1;
    }
    proof {
        assert(s@.take(n as int) =~= s@);
    }
    v
}

/// Whether a vector of characters spells exactly the given string.
pub fn chars_eq_str(v: &Vec<char>, s: &str) -> (r: bool)
    ensures
        r == (v@ == s@),
{
    let n = s.unicode_len();
    if v.len() != n {
        return false;
    }
    let mut i: usize = 0;
    while i < n
        invariant
            n == s@.len(),
            v@.len() == n,
            i <= n,
            forall|j: int| 0 <= j < i ==> v@[j] == s@[j],
        decreases n - i,
    {
        if v[i] != s.get_char(i) {
            return false;
        }
        i += 1;
    }
    proof {
        assert(v@ =~= s@);
    }
    true
}

/// Executable twin of [`is_ws`].
fn is_ws_exec(c: char) -> (r: bool)
    ensures
        r == is_ws(c),
{
    c == ' ' || c == '\n' || c == '\t' || c == '\r'
}

/// Executable twin of [`skip_ws`].
fn skip_ws_exec(s: &Vec<char>, i: usize) -> (r: usize)
    requires
        i <= s@.len(),
    ensures
        r == skip_ws(s@, i as int),
        i <= r <= s@.len(),
{
    let mut j = i;
    while j < s.len() && is_ws_exec(s[j])
        invariant
            i <= j <= s@.len(),
            skip_ws(s@, i as int) == skip_ws(s@, j as int),
        decreases s@.len() - j,
    {
        j += 1;
    }
    j
}

/// Executable twin of [`hex_val`]; a hex digit's value is below sixteen.
fn hex_val_exec(c: char) -> (r: Option<u32>)
    ensures
        r == hex_val(c),
        r is Some ==> r->0 < 16,
{
    let u = c as u32;
    if 0x30 <= u && u <= 0x39 {
        Some(u - 0x30)
    } else if 0x61 <= u && u <= 0x66 {
        Some(u - 0x57)
    } else if 0x41 <= u && u <= 0x46 {
        Some(u - 0x37)
    } else {
        None
    }
}

/// Executable twin of [`hex4`]; four hex digits are worth less than
/// `0x10000`, and a success means all four were inside the input.
fn hex4_exec(s: &Vec<char>, i: usize) -> (r: Option<u32>)
    requires
        i <= s@.len(),
    ensures
        r == hex4(s@, i as int),
        r is Some ==> r->0 < 0x10000 && s@.len() - i >= 4,
{
    if s.len() - i >= 4 {
        let a = hex_val_exec(s[i]);
        let b = hex_val_exec(s[i + 1]);
        let c = hex_val_exec(s[i + 2]);
        let d = hex_val_exec(s[i + 3]);
        match (a, b, c, d) {
            (Some(a), Some(b), Some(c), Some(d)) => Some(a * 4096 + b * 256 + c * 16 + d),
            _ => None,
        }
    } else {
        None
    }
}

/// Executable twin of [`parse_unicode`].
fn parse_unicode_exec(s: &Vec<char>, i: usize) -> (r: Option<(char, usize)>)
    requires
        i <= s@.len(),
    ensures
        match r {
            Some(p) => parse_unicode(s@, i as int) == Some((p.0, p.1 as int)) && i < p.1
                <= s@.len(),
            None => parse_unicode(s@, i as int) is None,
        },
{
    let len = s.len();
    match hex4_exec(s, i) {
        None => None,
        Some(n) => {
            if n < 0xD800 || n >= 0xE000 {
                match char::from_u32(n) {
                    Some(c) => {
                        proof {
                            vstd::utf8::char_u32_cast(c, n);
                        }
                        Some((c, i + 4))
                    },
                    None => {
                        proof {
                            assert(false);
                        }
                        None
                    },
                }
            } else if n < 0xDC00 {
                if len - i >= 6 && s[i + 4] == '\\' && s[i + 5] == 'u' {
                    match hex4_exec(s, i + 6) {
                        None => None,
                        Some(lo) => {
                            if 0xDC00 <= lo && lo < 0xE000 {
                                let combined: u32 = 0x10000 + (n - 0xD800) * 0x400 + (lo - 0xDC00);
                                match char::from_u32(combined) {
                                    Some(c) => {
                                        proof {
                                            vstd::utf8::char_u32_cast(c, combined);
                                        }
                                        Some((c, i + 10))
                                    },
                                    None => {
                                        proof {
                                            assert(false);
                                        }
                                        None
                                    },
                                }
                            } else {
                                None
                            }
                        },
                    }
                } else {
                    None
                }
            } else {
                None
            }
        },
    }
}

/// Executable twin of [`parse_escape`].
fn parse_escape_exec(s: &Vec<char>, i: usize) -> (r: Option<(char, usize)>)
    requires
        i <= s@.len(),
    ensures
        match r {
            Some(p) => parse_escape(s@, i as int) == Some((p.0, p.1 as int)) && i < p.1
                <= s@.len(),
            None => parse_escape(s@, i as int) is None,
        },
{
    if i >= s.len() {
        return None;
    }
    let c = s[i];
    if c == '"' {
        Some(('"', i + 1))
    } else if c == '\\' {
        Some(('\\', i + 1))
    } else if c == '/' {
        Some(('/', i + 1))
    } else if c == 'b' {
        Some(('\u{8}', i + 1))
    } else if c == 'f' {
        Some(('\u{c}', i + 1))
    } else if c == 'n' {
        Some(('\n', i + 1))
    } else if c == 'r' {
        Some(('\r', i + 1))
    } else if c == 't' {
        Some(('\t', i + 1))
    } else if c == 'u' {
        parse_unicode_exec(s, i + 1)
    } else {
        None
    }
}

/// Executable twin of [`parse_string_chars`].
fn parse_string_chars_exec(s: &Vec<char>, i: usize, acc: Vec<char>) -> (r: Option<
    (Vec<char>, usize),
>)
    requires
        i <= s@.len(),
    ensures
        match r {
            Some(p) => parse_string_chars(s@, i as int, acc@) == Some((p.0@, p.1 as int)) && i
                < p.1 <= s@.len(),
            None => parse_string_chars(s@, i as int, acc@) is None,
        },
    decreases s@.len() - i,
{
    if i >= s.len() {
        return None;
    }
    let c = s[i];
    if c == '"' {
        Some((acc, i + 1))
    } else if c == '\\' {
        match parse_escape_exec(s, i + 1) {
            None => None,
            Some(p) => {
                let mut acc2 = acc;
                acc2.push(p.0);
                parse_string_chars_exec(s, p.1, acc2)
            },
        }
    } else if (c as u32) < 0x20 {
        None
    } else {
        let mut acc2 = acc;
        acc2.push(c);
        parse_string_chars_exec(s, i + 1, acc2)
    }
}

/// Executable twin of [`parse_ws_string`].
fn parse_ws_string_exec(s: &Vec<char>, i: usize) -> (r: Option<(Vec<char>, usize)>)
    requires
        i <= s@.len(),
    ensures
        match r {
            Some(p) => parse_ws_string(s@, i as int) == Some((p.0@, p.1 as int)) && i < p.1
                <= s@.len(),
            None => parse_ws_string(s@, i as int) is None,
        },
{
    let j = skip_ws_exec(s, i);
    if j < s.len() && s[j] == '"' {
        parse_string_chars_exec(s, j + 1, Vec::new())
    } else {
        None
    }
}

/// Executable twin of [`expect_char`].
fn expect_char_exec(s: &Vec<char>, i: usize, c: char) -> (r: Option<usize>)
    requires
        i <= s@.len(),
    ensures
        match r {
            Some(j) => expect_char(s@, i as int, c) == Some(j as int) && i < j <= s@.len(),
            None => expect_char(s@, i as int, c) is None,
        },
{
    let j = skip_ws_exec(s, i);
    if j < s.len() && s[j] == c {
        Some(j + 1)
    } else {
        None
    }
}

/// Executable twin of [`parse_metadata_body`].
fn parse_metadata_body_exec(s: &Vec<char>, i: usize) -> (r: Option<(Metadata, usize)>)
    requires
        i <= s@.len(),
    ensures
        match r {
            Some(p) => parse_metadata_body(s@, i as int) == Some((p.0@, p.1 as int)) && i < p.1
                <= s@.len(),
            None => parse_metadata_body(s@, i as int) is None,
        },
{
    if i >= s.len() {
        return None;
    }
    if s[i] != '{' {
        return None;
    }
    let (k1, j1) = match parse_ws_string_exec(s, i + 1) {
        Some(p) => p,
        None => {
            return None;
        },
    };
    let j2 = match expect_char_exec(s, j1, ':') {
        Some(j) => j,
        None => {
            return None;
        },
    };
    let (v1, j3) = match parse_ws_string_exec(s, j2) {
        Some(p) => p,
        None => {
            return None;
        },
    };
    let j4 = match expect_char_exec(s, j3, ',') {
        Some(j) => j,
        None => {
            return None;
        },
    };
    let (k2, j5) = match parse_ws_string_exec(s, j4) {
        Some(p) => p,
        None => {
            return None;
        },
    };
    let j6 = match expect_char_exec(s, j5, ':') {
        Some(j) => j,
        None => {
            return None;
        },
    };
    let (v2, j7) = match parse_ws_string_exec(s, j6) {
        Some(p) => p,
        None => {
            return None;
        },
    };
    let j8 = match expect_char_exec(s, j7, '}') {
        Some(j) => j,
        None => {
            return None;
        },
    };
    let k1_title = chars_eq_str(&k1, "title");
    let k1_checksum = chars_eq_str(&k1, "checksum");
    let k2_title = chars_eq_str(&k2, "title");
    let k2_checksum = chars_eq_str(&k2, "checksum");
    proof {
        reveal_strlit("title");
        reveal_strlit("checksum");
        assert("title"@ =~= key_title());
        assert("checksum"@ =~= key_checksum());
    }
    if k1_title && k2_checksum {
        let m = Metadata { title: chars_to_string(v1), checksum: chars_to_string(v2) };
        Some((m, j8))
    } else if k1_checksum && k2_title {
        let m = Metadata { title: chars_to_string(v2), checksum: chars_to_string(v1) };
        Some((m, j8))
    } else {
        None
    }
}

/// The view of raw `(alias, metadata)` pairs as entry values.
pub open spec fn pairs_view(ps: Seq<(String, Metadata)>) -> Seq<(Seq<char>, MetadataV)> {
    ps.map_values(|p: (String, Metadata)| (p.0@, p.1@))
}

/// Executable twin of [`parse_entries`].
fn parse_entries_exec(s: &Vec<char>, i: usize, acc: Vec<(String, Metadata)>) -> (r: Option<
    (Vec<(String, Metadata)>, usize),
>)
    requires
        i <= s@.len(),
    ensures
        match r {
            Some(p) => parse_entries(s@, i as int, pairs_view(acc@)) == Some(
                (pairs_view(p.0@), p.1 as int),
            ) && p.1 <= s@.len(),
            None => parse_entries(s@, i as int, pairs_view(acc@)) is None,
        },
    decreases s@.len() - i,
{
    let (alias, j1) = match parse_ws_string_exec(s, i) {
        Some(p) => p,
        None => {
            return None;
        },
    };
    let ghost alias_chars = alias@;
    let j2 = match expect_char_exec(s, j1, ':') {
        Some(j) => j,
        None => {
            return None;
        },
    };
    let j3 = skip_ws_exec(s, j2);
    let (m, j4) = match parse_metadata_body_exec(s, j3) {
        Some(p) => p,
        None => {
            return None;
        },
    };
    let ghost mv = m@;
    let mut acc2 = acc;
    acc2.push((chars_to_string(alias), m));
    proof {
        assert(pairs_view(acc2@) =~= pairs_view(acc@).push((alias_chars, mv)));
    }
    let j5 = skip_ws_exec(s, j4);
    if j5 < s.len() && s[j5] == ',' {
        parse_entries_exec(s, j5 + 1, acc2)
    } else {
        Some((acc2, j5))
    }
}

/// Executable twin of [`parse_end`].
fn parse_end_exec(s: &Vec<char>, i: usize, es: Vec<(String, Metadata)>) -> (r: Option<
    Vec<(String, Metadata)>,
>)
    requires
        i <= s@.len(),
    ensures
        match r {
            Some(v) => parse_end(s@, i as int, pairs_view(es@)) == Some(pairs_view(v@)),
            None => parse_end(s@, i as int, pairs_view(es@)) is None,
        },
{
    let j = match expect_char_exec(s, i, '}') {
        Some(j) => j,
        None => {
            return None;
        },
    };
    let j2 = skip_ws_exec(s, j);
    if j2 == s.len() {
        Some(es)
    } else {
        None
    }
}

/// Executable twin of [`parse_collection_chars`]: the checkpoint document's
/// entries, in document order.
pub fn parse_collection_exec(s: &Vec<char>) -> (r: Option<Vec<(String, Metadata)>>)
    ensures
        match r {
            Some(v) => parse_collection_chars(s@) == Some(pairs_view(v@)),
            None => parse_collection_chars(s@) is None,
        },
{
    let i1 = match expect_char_exec(s, 0, '{') {
        Some(j) => j,
        None => {
            return None;
        },
    };
    let (k, i2) = match parse_ws_string_exec(s, i1) {
        Some(p) => p,
        None => {
            return None;
        },
    };
    let k_ok = chars_eq_str(&k, "metadata");
    proof {
        reveal_strlit("metadata");
        assert("metadata"@ =~= key_metadata());
    }
    if !k_ok {
        return None;
    }
    let i3 = match expect_char_exec(s, i2, ':') {
        Some(j) => j,
        None => {
            return None;
        },
    };
    let i4 = match expect_char_exec(s, i3, '{') {
        Some(j) => j,
        None => {
            return None;
        },
    };
    let j = skip_ws_exec(s, i4);
    if j < s.len() && s[j] == '}' {
        let empty: Vec<(String, Metadata)> = Vec::new();
        proof {
            assert(pairs_view(empty@) =~= Seq::<(Seq<char>, MetadataV)>::empty());
        }
        parse_end_exec(s, j + 1, empty)
    } else {
        let empty: Vec<(String, Metadata)> = Vec::new();
        proof {
            assert(pairs_view(empty@) =~= Seq::<(Seq<char>, MetadataV)>::empty());
        }
        let (es, j2) = match parse_entries_exec(s, i4, empty) {
            Some(p) => p,
            None => {
                return None;
            },
        };
        let j3 = match expect_char_exec(s, j2, '}') {
            Some(j) => j,
            None => {
                return None;
            },
        };
        parse_end_exec(s, j3, es)
    }
}

} // verus!
