//! The store's durable document format: a JSON array of objects, each
//! holding a `"date"` field in the strict `YYYY-MM-DD` pattern and a
//! `"text"` field with arbitrary text.
//!
//! Both directions are defined here: a renderer that writes the compact
//! form, and a parser that accepts the format with arbitrary JSON
//! whitespace, both key orders, and the standard string escapes (short
//! escapes and non-surrogate `\uXXXX`). Encoding then decoding is proved
//! lossless for every store.

use vstd::prelude::*;
use crate::dates::Date;
use crate::history::{Message, MessageView};
use crate::json_date_format::{spec_date_chars, spec_parse_date};

verus! {

// ---------------------------------------------------------------------------
// Characters: whitespace and hexadecimal digits
// ---------------------------------------------------------------------------

/// JSON insignificant whitespace.
pub open spec fn spec_is_ws(c: char) -> bool {
    c == ' ' || c == '\t' || c == '\n' || c == '\r'
}

/// The input with its leading whitespace removed.
pub open spec fn spec_skip_ws(s: Seq<char>) -> Seq<char>
    decreases s.len(),
{
    if s.len() > 0 && spec_is_ws(s[0]) {
        spec_skip_ws(s.drop_first())
    } else {
        s
    }
}

pub open spec fn spec_is_hex(c: char) -> bool {
    crate::json_date_format::spec_is_digit(c) || c == 'a' || c == 'b' || c == 'c' || c == 'd' || c
        == 'e' || c == 'f' || c == 'A' || c == 'B' || c == 'C' || c == 'D' || c == 'E' || c == 'F'
}

/// The numeric value of a hexadecimal digit character.
pub open spec fn spec_hex_val(c: char) -> int {
    if crate::json_date_format::spec_is_digit(c) {
        crate::json_date_format::spec_digit_val(c)
    } else if c == 'a' || c == 'A' {
        10
    } else if c == 'b' || c == 'B' {
        11
    } else if c == 'c' || c == 'C' {
        12
    } else if c == 'd' || c == 'D' {
        13
    } else if c == 'e' || c == 'E' {
        14
    } else {
        15
    }
}

/// The lower-case hexadecimal digit character for a value from 0 through 15.
pub open spec fn spec_hex_char(n: int) -> char {
    if n < 10 {
        crate::json_date_format::spec_digit_char(n)
    } else if n == 10 {
        'a'
    } else if n == 11 {
        'b'
    } else if n == 12 {
        'c'
    } else if n == 13 {
        'd'
    } else if n == 14 {
        'e'
    } else {
        'f'
    }
}

// ---------------------------------------------------------------------------
// Rendering
// ---------------------------------------------------------------------------

/// How one character is written inside a JSON string: quote, backslash and
/// the named control characters get short escapes, other control characters
/// get `\u00XX`, everything else stands for itself.
pub open spec fn spec_escape_char(c: char) -> Seq<char> {
    if c == '"' {
        seq!['\\', '"']
    } else if c == '\\' {
        seq!['\\', '\\']
    } else if c == '\n' {
        seq!['\\', 'n']
    } else if c == '\r' {
        seq!['\\', 'r']
    } else if c == '\t' {
        seq!['\\', 't']
    } else if c == '\u{0008}' {
        seq!['\\', 'b']
    } else if c == '\u{000C}' {
        seq!['\\', 'f']
    } else if (c as u32) < 0x20 {
        seq!['\\', 'u', '0', '0', spec_hex_char((c as u32) as int / 16), spec_hex_char(
            (c as u32) as int % 16,
        )]
    } else {
        seq![c]
    }
}

/// A text with every character escaped as JSON requires.
pub open spec fn spec_escape(s: Seq<char>) -> Seq<char>
    decreases s.len(),
{
    if s.len() == 0 {
        Seq::empty()
    } else {
        spec_escape_char(s[0]) + spec_escape(s.drop_first())
    }
}

/// A JSON string literal: the escaped text between double quotes.
pub open spec fn spec_quoted(s: Seq<char>) -> Seq<char> {
    seq!['"'] + spec_escape(s) + seq!['"']
}

pub open spec fn date_key() -> Seq<char> {
    seq!['d', 'a', 't', 'e']
}

pub open spec fn text_key() -> Seq<char> {
    seq!['t', 'e', 'x', 't']
}

/// One entry as a compact JSON object with its two fields.
pub open spec fn spec_render_message(m: MessageView) -> Seq<char> {
    seq!['{'] + spec_quoted(date_key()) + seq![':'] + spec_quoted(spec_date_chars(m.date)) + seq![
        ',',
    ] + spec_quoted(text_key()) + seq![':'] + spec_quoted(m.text) + seq!['}']
}

/// The remaining entries, each preceded by a comma.
pub open spec fn spec_render_more(ms: Seq<MessageView>) -> Seq<char>
    decreases ms.len(),
{
    if ms.len() == 0 {
        Seq::empty()
    } else {
        seq![','] + spec_render_message(ms[0]) + spec_render_more(ms.drop_first())
    }
}

/// The whole store as a compact JSON array.
pub open spec fn spec_render_document(ms: Seq<MessageView>) -> Seq<char> {
    if ms.len() == 0 {
        seq!['[', ']']
    } else {
        seq!['['] + spec_render_message(ms[0]) + spec_render_more(ms.drop_first()) + seq![']']
    }
}

// ---------------------------------------------------------------------------
// Parsing
// ---------------------------------------------------------------------------

/// The character named by a short escape after a backslash, if any.
pub open spec fn spec_escape_code(e: char) -> Option<char> {
    if e == '"' {
        Some('"')
    } else if e == '\\' {
        Some('\\')
    } else if e == '/' {
        Some('/')
    } else if e == 'n' {
        Some('\n')
    } else if e == 'r' {
        Some('\r')
    } else if e == 't' {
        Some('\t')
    } else if e == 'b' {
        Some('\u{0008}')
    } else if e == 'f' {
        Some('\u{000C}')
    } else {
        None
    }
}

/// The body of a JSON string, read after its opening quote: the decoded
/// text and the input remaining after the closing quote. Surrogate
/// `\uXXXX` values and raw control characters are rejected.
pub open spec fn spec_parse_string_body(s: Seq<char>) -> Option<(Seq<char>, Seq<char>)>
    decreases s.len(),
{
    if s.len() == 0 {
        None
    } else if s[0] == '"' {
        Some((Seq::empty(), s.drop_first()))
    } else if s[0] == '\\' {
        if s.len() < 2 {
            None
        } else if s[1] == 'u' {
            if s.len() < 6 {
                None
            } else if spec_is_hex(s[2]) && spec_is_hex(s[3]) && spec_is_hex(s[4]) && spec_is_hex(
                s[5],
            ) {
                let code = 4096 * spec_hex_val(s[2]) + 256 * spec_hex_val(s[3]) + 16 * spec_hex_val(
                    s[4],
                ) + spec_hex_val(s[5]);
                if code < 0xD800 || code >= 0xE000 {
                    match spec_parse_string_body(s.skip(6)) {
                        Some((t, r)) => Some((seq![((code as u32) as char)] + t, r)),
                        None => None,
                    }
                } else {
                    None
                }
            } else {
                None
            }
        } else {
            match spec_escape_code(s[1]) {
                Some(c) => match spec_parse_string_body(s.skip(2)) {
                    Some((t, r)) => Some((seq![c] + t, r)),
                    None => None,
                },
                None => None,
            }
        }
    } else if (s[0] as u32) < 0x20 {
        None
    } else {
        match spec_parse_string_body(s.drop_first()) {
            Some((t, r)) => Some((seq![s[0]] + t, r)),
            None => None,
        }
    }
}

/// One `"key": "value"` member, read at its opening quote.
pub open spec fn spec_parse_member(s: Seq<char>) -> Option<((Seq<char>, Seq<char>), Seq<char>)> {
    if s.len() > 0 && s[0] == '"' {
        match spec_parse_string_body(s.drop_first()) {
            Some((key, r1)) => {
                let r2 = spec_skip_ws(r1);
                if r2.len() > 0 && r2[0] == ':' {
                    let r3 = spec_skip_ws(r2.drop_first());
                    if r3.len() > 0 && r3[0] == '"' {
                        match spec_parse_string_body(r3.drop_first()) {
                            Some((val, r4)) => Some(((key, val), r4)),
                            None => None,
                        }
                    } else {
                        None
                    }
                } else {
                    None
                }
            },
            None => None,
        }
    } else {
        None
    }
}

/// The entry described by the two members of one object: the members must
/// be `date` and `text` in either order, and the date must follow the
/// strict pattern.
pub open spec fn spec_message_of_members(
    k1: Seq<char>,
    v1: Seq<char>,
    k2: Seq<char>,
    v2: Seq<char>,
) -> Option<MessageView> {
    let fields = if k1 == date_key() && k2 == text_key() {
        Some((v1, v2))
    } else if k1 == text_key() && k2 == date_key() {
        Some((v2, v1))
    } else {
        None
    };
    match fields {
        Some((ds, ts)) => match spec_parse_date(ds) {
            Some(d) => Some(MessageView { date: d, text: ts }),
            None => None,
        },
        None => None,
    }
}

/// One entry object, read at its opening brace.
pub open spec fn spec_parse_object(s: Seq<char>) -> Option<(MessageView, Seq<char>)> {
    if s.len() > 0 && s[0] == '{' {
        let r1 = spec_skip_ws(s.drop_first());
        match spec_parse_member(r1) {
            Some(((k1, v1), r2)) => {
                let r3 = spec_skip_ws(r2);
                if r3.len() > 0 && r3[0] == ',' {
                    let r4 = spec_skip_ws(r3.drop_first());
                    match spec_parse_member(r4) {
                        Some(((k2, v2), r5)) => {
                            let r6 = spec_skip_ws(r5);
                            if r6.len() > 0 && r6[0] == '}' {
                                match spec_message_of_members(k1, v1, k2, v2) {
                                    Some(m) => Some((m, r6.drop_first())),
                                    None => None,
                                }
                            } else {
                                None
                            }
                        },
                        None => None,
                    }
                } else {
                    None
                }
            },
            None => None,
        }
    } else {
        None
    }
}

/// The array's remaining entries, read after one entry: either a comma and
/// a further entry, or the closing bracket.
pub open spec fn spec_parse_rest_elems(s: Seq<char>) -> Option<(Seq<MessageView>, Seq<char>)>
    decreases s.len(),
{
    let r1 = spec_skip_ws(s);
    if r1.len() == 0 {
        None
    } else if r1[0] == ']' {
        Some((Seq::empty(), r1.drop_first()))
    } else if r1[0] == ',' {
        let r2 = spec_skip_ws(r1.drop_first());
        match spec_parse_object(r2) {
            Some((m, r3)) => {
                if r3.len() < s.len() {
                    match spec_parse_rest_elems(r3) {
                        Some((ms, r4)) => Some((seq![m] + ms, r4)),
                        None => None,
                    }
                } else {
                    None
                }
            },
            None => None,
        }
    } else {
        None
    }
}

/// The whole document: one array of entry objects and nothing else.
pub open spec fn spec_parse_document(s: Seq<char>) -> Option<Seq<MessageView>> {
    let r0 = spec_skip_ws(s);
    if r0.len() > 0 && r0[0] == '[' {
        let r1 = spec_skip_ws(r0.drop_first());
        if r1.len() > 0 && r1[0] == ']' {
            if spec_skip_ws(r1.drop_first()).len() == 0 {
                Some(Seq::empty())
            } else {
                None
            }
        } else {
            match spec_parse_object(r1) {
                Some((m, r2)) => match spec_parse_rest_elems(r2) {
                    Some((ms, r3)) => if spec_skip_ws(r3).len() == 0 {
                        Some(seq![m] + ms)
                    } else {
                        None
                    },
                    None => None,
                },
                None => None,
            }
        }
    } else {
        None
    }
}

// ---------------------------------------------------------------------------
// Round trip: parsing what the renderer wrote yields the store back
// ---------------------------------------------------------------------------

/// Decoding a hexadecimal digit character yields the encoded value back.
proof fn lemma_hex_digit_round_trip(n: int)
    requires
        0 <= n < 16,
    ensures
        spec_is_hex(spec_hex_char(n)),
        spec_hex_val(spec_hex_char(n)) == n,
{
}

/// Reading a string body from an escaped text, its closing quote and any
/// remainder yields the text and the remainder back.
proof fn lemma_escape_round_trip(t: Seq<char>, rest: Seq<char>)
    ensures
        spec_parse_string_body(spec_escape(t) + seq!['"'] + rest) == Some((t, rest)),
    decreases t.len(),
{
    let s = spec_escape(t) + seq!['"'] + rest;
    if t.len() == 0 {
        assert(spec_escape(t) == Seq::<char>::empty());
        assert(s =~= seq!['"'] + rest);
        assert(s.drop_first() =~= rest);
    } else {
        let c = t[0];
        let t2 = t.drop_first();
        lemma_escape_round_trip(t2, rest);
        let tail = spec_escape(t2) + seq!['"'] + rest;
        assert(spec_escape(t) == spec_escape_char(c) + spec_escape(t2));
        assert(s =~= spec_escape_char(c) + tail);
        assert(seq![c] + t2 =~= t);
        if c == '"' || c == '\\' || c == '\n' || c == '\r' || c == '\t' || c == '\u{0008}' || c
            == '\u{000C}' {
            let e = spec_escape_char(c)[1];
            assert(s[0] == '\\' && s[1] == e);
            assert(e != 'u');
            assert(spec_escape_code(e) == Some(c));
            assert(s.skip(2) =~= tail);
        } else if (c as u32) < 0x20 {
            let c32 = (c as u32) as int;
            lemma_hex_digit_round_trip(c32 / 16);
            lemma_hex_digit_round_trip(c32 % 16);
            assert(s[0] == '\\' && s[1] == 'u' && s[2] == '0' && s[3] == '0');
            assert(s[4] == spec_hex_char(c32 / 16) && s[5] == spec_hex_char(c32 % 16));
            assert(s.len() >= 6);
            let code = 4096 * spec_hex_val(s[2]) + 256 * spec_hex_val(s[3]) + 16 * spec_hex_val(
                s[4],
            ) + spec_hex_val(s[5]);
            assert(spec_hex_val('0') == 0);
            vstd::arithmetic::div_mod::lemma_fundamental_div_mod(c32, 16);
            assert(code == c32);
            vstd::utf8::char_u32_cast(c, c as u32);
            assert(((code as u32) as char) == c);
            assert(s.skip(6) =~= tail);
        } else {
            assert(spec_escape_char(c) == seq![c]);
            assert(s[0] == c);
            assert(s.drop_first() =~= tail);
        }
    }
}

/// Reading a member from a rendered `"key":"value"` pair and any remainder
/// yields the pair and the remainder back.
proof fn lemma_member_round_trip(k: Seq<char>, v: Seq<char>, rest: Seq<char>)
    ensures
        spec_parse_member(spec_quoted(k) + seq![':'] + spec_quoted(v) + rest) == Some(
            ((k, v), rest),
        ),
{
    let s = spec_quoted(k) + seq![':'] + spec_quoted(v) + rest;
    let mid = seq![':'] + spec_quoted(v) + rest;
    assert(s[0] == '"');
    assert(s.drop_first() =~= spec_escape(k) + seq!['"'] + mid);
    lemma_escape_round_trip(k, mid);
    assert(spec_parse_string_body(s.drop_first()) == Some((k, mid)));
    assert(spec_skip_ws(mid) == mid);
    assert(mid[0] == ':');
    let r3 = mid.drop_first();
    assert(r3 =~= spec_quoted(v) + rest);
    assert(spec_skip_ws(r3) == r3);
    assert(r3[0] == '"');
    assert(r3.drop_first() =~= spec_escape(v) + seq!['"'] + rest);
    lemma_escape_round_trip(v, rest);
}

/// Reading an object from a rendered entry and any remainder yields the
/// entry and the remainder back.
proof fn lemma_object_round_trip(m: MessageView, rest: Seq<char>)
    requires
        m.date.wf(),
    ensures
        spec_parse_object(spec_render_message(m) + rest) == Some((m, rest)),
{
    let s = spec_render_message(m) + rest;
    let dchars = spec_date_chars(m.date);
    let after1 = seq![','] + spec_quoted(text_key()) + seq![':'] + spec_quoted(m.text) + seq!['}']
        + rest;
    assert(s[0] == '{');
    assert(s.drop_first() =~= spec_quoted(date_key()) + seq![':'] + spec_quoted(dchars) + after1);
    let r1 = s.drop_first();
    assert(spec_skip_ws(r1) == r1);
    lemma_member_round_trip(date_key(), dchars, after1);
    assert(spec_parse_member(r1) == Some(((date_key(), dchars), after1)));
    assert(spec_skip_ws(after1) == after1);
    assert(after1[0] == ',');
    let r4 = after1.drop_first();
    let after2 = seq!['}'] + rest;
    assert(r4 =~= spec_quoted(text_key()) + seq![':'] + spec_quoted(m.text) + after2);
    assert(spec_skip_ws(r4) == r4);
    lemma_member_round_trip(text_key(), m.text, after2);
    assert(spec_parse_member(r4) == Some(((text_key(), m.text), after2)));
    assert(spec_skip_ws(after2) == after2);
    assert(after2[0] == '}');
    assert(after2.drop_first() =~= rest);
    assert(date_key() != text_key()) by {
        assert(date_key()[0] != text_key()[0]);
    }
    crate::json_date_format::lemma_date_round_trip(m.date);
    assert(spec_message_of_members(date_key(), dchars, text_key(), m.text) == Some(m)) by {
        assert(MessageView { date: m.date, text: m.text } =~= m);
    }
}

/// Reading the rest of an array from rendered further entries, the closing
/// bracket and any remainder yields those entries and the remainder back.
proof fn lemma_rest_round_trip(ms: Seq<MessageView>, rest: Seq<char>)
    requires
        forall|i: int| 0 <= i < ms.len() ==> (#[trigger] ms[i]).date.wf(),
    ensures
        spec_parse_rest_elems(spec_render_more(ms) + seq![']'] + rest) == Some((ms, rest)),
    decreases ms.len(),
{
    let s = spec_render_more(ms) + seq![']'] + rest;
    if ms.len() == 0 {
        assert(s =~= seq![']'] + rest);
        assert(spec_skip_ws(s) == s);
        assert(s[0] == ']');
        assert(s.drop_first() =~= rest);
    } else {
        let m = ms[0];
        let ms2 = ms.drop_first();
        let tail = spec_render_more(ms2) + seq![']'] + rest;
        assert(spec_render_more(ms) == seq![','] + spec_render_message(m) + spec_render_more(ms2));
        assert(spec_skip_ws(s) == s);
        assert(s[0] == ',');
        assert(s.drop_first() =~= spec_render_message(m) + tail);
        let r2 = s.drop_first();
        assert(spec_skip_ws(r2) == r2);
        lemma_object_round_trip(m, tail);
        assert(spec_parse_object(r2) == Some((m, tail)));
        assert(tail.len() < s.len());
        lemma_rest_round_trip(ms2, rest);
        assert(spec_parse_rest_elems(tail) == Some((ms2, rest)));
        assert(seq![m] + ms2 =~= ms);
    }
}

/// The round trip for the empty store.
proof fn lemma_document_round_trip_empty(ms: Seq<MessageView>)
    requires
        ms.len() == 0,
    ensures
        spec_parse_document(spec_render_document(ms)) == Some(ms),
{
    let s = spec_render_document(ms);
    assert(s == seq!['[', ']']);
    assert(spec_skip_ws(s) == s);
    assert(s[0] == '[');
    assert(s.drop_first() =~= seq![']']);
    let r1 = s.drop_first();
    assert(spec_skip_ws(r1) == r1);
    assert(r1[0] == ']');
    assert(r1.drop_first() =~= Seq::<char>::empty());
    assert(spec_skip_ws(Seq::<char>::empty()).len() == 0);
    assert(ms =~= Seq::<MessageView>::empty());
}

/// The round trip for a store with at least one entry.
proof fn lemma_document_round_trip_nonempty(ms: Seq<MessageView>)
    requires
        ms.len() > 0,
        forall|i: int| 0 <= i < ms.len() ==> (#[trigger] ms[i]).date.wf(),
    ensures
        spec_parse_document(spec_render_document(ms)) == Some(ms),
{
    let s = spec_render_document(ms);
    let m = ms[0];
    let ms2 = ms.drop_first();
    let empty = Seq::<char>::empty();
    let tail = spec_render_more(ms2) + seq![']'] + empty;
    assert(s =~= seq!['['] + (spec_render_message(m) + tail)) by {
        assert(spec_render_more(ms2) + seq![']'] + empty =~= spec_render_more(ms2) + seq![']']);
    }
    assert(s[0] == '[');
    assert(!spec_is_ws('['));
    assert(spec_skip_ws(s) == s);
    let r1 = s.drop_first();
    assert(r1 =~= spec_render_message(m) + tail);
    assert(r1[0] == '{');
    assert(spec_skip_ws(r1) == r1);
    lemma_object_round_trip(m, tail);
    assert(spec_parse_object(r1) == Some((m, tail)));
    lemma_rest_round_trip(ms2, empty);
    assert(spec_parse_rest_elems(tail) == Some((ms2, empty)));
    assert(spec_skip_ws(empty).len() == 0);
    assert(seq![m] + ms2 =~= ms);
    assert(spec_parse_document(s) == Some(ms));
}

/// Rendering a store and parsing the result yields the same sequence of
/// entries: the document format loses nothing.
pub proof fn lemma_document_round_trip(ms: Seq<MessageView>)
    requires
        forall|i: int| 0 <= i < ms.len() ==> (#[trigger] ms[i]).date.wf(),
    ensures
        spec_parse_document(spec_render_document(ms)) == Some(ms),
{
    if ms.len() == 0 {
        lemma_document_round_trip_empty(ms);
    } else {
        lemma_document_round_trip_nonempty(ms);
    }
}

// ---------------------------------------------------------------------------
// Parsed dates are well-formed
// ---------------------------------------------------------------------------

/// A parsed entry carries a well-formed date: the date codec accepts
/// nothing else.
proof fn lemma_parse_object_wf(s: Seq<char>)
    ensures
        spec_parse_object(s) matches Some((m, r)) ==> m.date.wf(),
{
}

/// Every entry parsed from the rest of an array carries a well-formed date.
proof fn lemma_parse_rest_wf(s: Seq<char>)
    ensures
        spec_parse_rest_elems(s) matches Some((ms, r)) ==> forall|i: int|
            0 <= i < ms.len() ==> (#[trigger] ms[i]).date.wf(),
    decreases s.len(),
{
    let r1 = spec_skip_ws(s);
    if r1.len() > 0 && r1[0] == ',' {
        let r2 = spec_skip_ws(r1.drop_first());
        if let Some((m, r3)) = spec_parse_object(r2) {
            lemma_parse_object_wf(r2);
            if r3.len() < s.len() {
                lemma_parse_rest_wf(r3);
            }
        }
    }
}

/// Every entry parsed from a document carries a well-formed date.
pub proof fn lemma_parse_document_wf(s: Seq<char>)
    ensures
        spec_parse_document(s) matches Some(ms) ==> forall|i: int|
            0 <= i < ms.len() ==> (#[trigger] ms[i]).date.wf(),
{
    let r0 = spec_skip_ws(s);
    if r0.len() > 0 && r0[0] == '[' {
        let r1 = spec_skip_ws(r0.drop_first());
        if !(r1.len() > 0 && r1[0] == ']') {
            if let Some((m, r2)) = spec_parse_object(r1) {
                lemma_parse_object_wf(r1);
                lemma_parse_rest_wf(r2);
            }
        }
    }
}

// ---------------------------------------------------------------------------
// Executable renderer
// ---------------------------------------------------------------------------

/// Escaping a text one character at a time, from the front, is the same as
/// escaping the whole.
proof fn lemma_escape_snoc(s: Seq<char>, c: char)
    ensures
        spec_escape(s.push(c)) == spec_escape(s) + spec_escape_char(c),
    decreases s.len(),
{
    if s.len() == 0 {
        let p = s.push(c);
        assert(p.drop_first() =~= Seq::<char>::empty());
        assert(spec_escape(p.drop_first()) == Seq::<char>::empty());
        assert(p[0] == c);
        assert(spec_escape(p) == spec_escape_char(c) + spec_escape(p.drop_first()));
        assert(spec_escape_char(c) + Seq::<char>::empty() =~= spec_escape_char(c));
        assert(spec_escape(s) + spec_escape_char(c) =~= spec_escape_char(c));
    } else {
        lemma_escape_snoc(s.drop_first(), c);
        assert(s.push(c).drop_first() =~= s.drop_first().push(c));
        assert(s.push(c)[0] == s[0]);
        assert(spec_escape_char(s[0]) + (spec_escape(s.drop_first()) + spec_escape_char(c)) =~= (
        spec_escape_char(s[0]) + spec_escape(s.drop_first())) + spec_escape_char(c));
    }
}

/// Rendering entries one at a time is the same as rendering them all.
proof fn lemma_render_more_snoc(ms: Seq<MessageView>, m: MessageView)
    ensures
        spec_render_more(ms.push(m)) == spec_render_more(ms) + seq![','] + spec_render_message(m),
    decreases ms.len(),
{
    if ms.len() == 0 {
        let p = ms.push(m);
        assert(p.drop_first() =~= Seq::<MessageView>::empty());
        assert(spec_render_more(p.drop_first()) == Seq::<char>::empty());
        assert(p[0] == m);
        assert(spec_render_more(p) == seq![','] + spec_render_message(m) + spec_render_more(
            p.drop_first(),
        ));
        assert(spec_render_more(p) =~= seq![','] + spec_render_message(m));
        assert(spec_render_more(ms) + seq![','] + spec_render_message(m) =~= seq![',']
            + spec_render_message(m));
    } else {
        lemma_render_more_snoc(ms.drop_first(), m);
        assert(ms.push(m).drop_first() =~= ms.drop_first().push(m));
        assert(ms.push(m)[0] == ms[0]);
        assert(seq![','] + spec_render_message(ms[0]) + (spec_render_more(ms.drop_first()) + seq![
            ',',
        ] + spec_render_message(m)) =~= (seq![','] + spec_render_message(ms[0])
            + spec_render_more(ms.drop_first())) + seq![','] + spec_render_message(m));
    }
}

fn hex_char(n: u32) -> (c: char)
    requires
        n < 16,
    ensures
        c == spec_hex_char(n as int),
{
    if n == 0 {
        '0'
    } else if n == 1 {
        '1'
    } else if n == 2 {
        '2'
    } else if n == 3 {
        '3'
    } else if n == 4 {
        '4'
    } else if n == 5 {
        '5'
    } else if n == 6 {
        '6'
    } else if n == 7 {
        '7'
    } else if n == 8 {
        '8'
    } else if n == 9 {
        '9'
    } else if n == 10 {
        'a'
    } else if n == 11 {
        'b'
    } else if n == 12 {
        'c'
    } else if n == 13 {
        'd'
    } else if n == 14 {
        'e'
    } else {
        'f'
    }
}

/// One character, written to `out` as it stands inside a JSON string.
fn push_escaped_char(out: &mut Vec<char>, c: char)
    ensures
        final(out)@ == old(out)@ + spec_escape_char(c),
{
    if c == '"' {
        out.push('\\');
        out.push('"');
    } else if c == '\\' {
        out.push('\\');
        out.push('\\');
    } else if c == '\n' {
        out.push('\\');
        out.push('n');
    } else if c == '\r' {
        out.push('\\');
        out.push('r');
    } else if c == '\t' {
        out.push('\\');
        out.push('t');
    } else if c == '\u{0008}' {
        out.push('\\');
        out.push('b');
    } else if c == '\u{000C}' {
        out.push('\\');
        out.push('f');
    } else {
        let code = c as u32;
        if code < 0x20 {
            out.push('\\');
            out.push('u');
            out.push('0');
            out.push('0');
            out.push(hex_char(code / 16));
            out.push(hex_char(code % 16));
        } else {
            out.push(c);
        }
    }
    proof {
        assert(out@ =~= old(out)@ + spec_escape_char(c));
    }
}

/// A text, written to `out` as a JSON string literal.
fn push_quoted(out: &mut Vec<char>, t: &Vec<char>)
    ensures
        final(out)@ == old(out)@ + spec_quoted(t@),
{
    out.push('"');
    let n = t.len();
    let mut i: usize = 0;
    while i < n
        invariant
            n == t.len(),
            i <= n,
            out@ == old(out)@ + seq!['"'] + spec_escape(t@.subrange(0, i as int)),
        decreases n - i,
    {
        proof {
            assert(t@.subrange(0, i as int).push(t@[i as int]) =~= t@.subrange(0, i + 1));
            lemma_escape_snoc(t@.subrange(0, i as int), t@[i as int]);
        }
        push_escaped_char(out, t[i]);
        i = i + 1;
    }
    proof {
        assert(t@.subrange(0, n as int) =~= t@);
    }
    out.push('"');
    proof {
        assert(out@ =~= old(out)@ + spec_quoted(t@));
    }
}

/// One entry, written to `out` as its compact JSON object.
fn push_message(out: &mut Vec<char>, m: &Message)
    requires
        m.date.wf(),
    ensures
        final(out)@ == old(out)@ + spec_render_message(m@),
{
    let key_date: Vec<char> = vec!['d', 'a', 't', 'e'];
    let key_text: Vec<char> = vec!['t', 'e', 'x', 't'];
    proof {
        assert(key_date@ =~= date_key());
        assert(key_text@ =~= text_key());
    }
    out.push('{');
    push_quoted(out, &key_date);
    out.push(':');
    let mut dchars: Vec<char> = Vec::new();
    crate::json_date_format::push_date_chars(&mut dchars, &m.date);
    proof {
        assert(dchars@ =~= spec_date_chars(m.date));
    }
    push_quoted(out, &dchars);
    out.push(',');
    push_quoted(out, &key_text);
    out.push(':');
    let tchars = crate::text::str_to_chars(m.text.as_str());
    push_quoted(out, &tchars);
    out.push('}');
    proof {
        assert(out@ =~= old(out)@ + spec_render_message(m@));
    }
}

/// The whole store, rendered as its compact JSON document.
pub fn render_document(list: &Vec<Message>) -> (r: String)
    requires
        forall|i: int|
            0 <= i < list@.len() ==> (#[trigger] list@[i]).date.wf(),
    ensures
        r@ == spec_render_document(crate::history::msgs_view(list@)),
{
    let ghost mv = crate::history::msgs_view(list@);
    let mut out: Vec<char> = Vec::new();
    out.push('[');
    if list.len() > 0 {
        push_message(&mut out, &list[0]);
        let n = list.len();
        let mut i: usize = 1;
        while i < n
            invariant
                n == list.len(),
                1 <= i <= n,
                mv == crate::history::msgs_view(list@),
                forall|k: int| 0 <= k < list@.len() ==> (#[trigger] list@[k]).date.wf(),
                out@ == seq!['['] + spec_render_message(mv[0]) + spec_render_more(
                    mv.subrange(1, i as int),
                ),
            decreases n - i,
        {
            out.push(',');
            push_message(&mut out, &list[i]);
            proof {
                assert(mv.subrange(1, i as int).push(mv[i as int]) =~= mv.subrange(1, i + 1));
                lemma_render_more_snoc(mv.subrange(1, i as int), mv[i as int]);
                assert(out@ =~= seq!['['] + spec_render_message(mv[0]) + spec_render_more(
                    mv.subrange(1, i + 1),
                ));
            }
            i = i + 1;
        }
        proof {
            assert(mv.subrange(1, n as int) =~= mv.drop_first());
        }
    }
    out.push(']');
    proof {
        if list.len() == 0 {
            assert(out@ =~= spec_render_document(mv));
        } else {
            assert(out@ =~= spec_render_document(mv));
        }
    }
    crate::text::chars_to_string(&out)
}

// ---------------------------------------------------------------------------
// Executable parser
// ---------------------------------------------------------------------------

fn is_ws_char(c: char) -> (r: bool)
    ensures
        r == spec_is_ws(c),
{
    c == ' ' || c == '\t' || c == '\n' || c == '\r'
}

fn hex_val(c: char) -> (r: Option<u8>)
    ensures
        spec_is_hex(c) ==> r == Some((spec_hex_val(c) as u8)),
        !spec_is_hex(c) ==> r is None,
{
    match crate::json_date_format::digit_val(c) {
        Some(d) => Some(d as u8),
        None => {
            if c == 'a' || c == 'A' {
                Some(10)
            } else if c == 'b' || c == 'B' {
                Some(11)
            } else if c == 'c' || c == 'C' {
                Some(12)
            } else if c == 'd' || c == 'D' {
                Some(13)
            } else if c == 'e' || c == 'E' {
                Some(14)
            } else if c == 'f' || c == 'F' {
                Some(15)
            } else {
                None
            }
        },
    }
}

fn escape_code(e: char) -> (r: Option<char>)
    ensures
        r == spec_escape_code(e),
{
    if e == '"' {
        Some('"')
    } else if e == '\\' {
        Some('\\')
    } else if e == '/' {
        Some('/')
    } else if e == 'n' {
        Some('\n')
    } else if e == 'r' {
        Some('\r')
    } else if e == 't' {
        Some('\t')
    } else if e == 'b' {
        Some('\u{0008}')
    } else if e == 'f' {
        Some('\u{000C}')
    } else {
        None
    }
}

/// Relies on `char::from_u32`: a character exists exactly for the values
/// up to 0x10FFFF that are not surrogates, and it carries that value.
#[verifier::external_body]
fn char_from_code(code: u32) -> (r: Option<char>)
    ensures
        (code < 0xD800 || (0xE000 <= code && code <= 0x10FFFF)) ==> r == Some((code as char)),
        !(code < 0xD800 || (0xE000 <= code && code <= 0x10FFFF)) ==> r is None,
{
    char::from_u32(code)
}

/// The position after the whitespace that starts at `i`.
fn skip_ws(v: &Vec<char>, i: usize) -> (j: usize)
    requires
        i <= v.len(),
    ensures
        i <= j <= v.len(),
        spec_skip_ws(v@.skip(i as int)) == v@.skip(j as int),
{
    let mut j = i;
    while j < v.len() && is_ws_char(v[j])
        invariant
            i <= j <= v.len(),
            spec_skip_ws(v@.skip(i as int)) == spec_skip_ws(v@.skip(j as int)),
        decreases v.len() - j,
    {
        proof {
            assert(v@.skip(j as int)[0] == v@[j as int]);
            assert(v@.skip(j as int).drop_first() =~= v@.skip(j as int + 1));
        }
        j = j + 1;
    }
    proof {
        if j < v.len() {
            assert(v@.skip(j as int)[0] == v@[j as int]);
        }
        assert(spec_skip_ws(v@.skip(j as int)) == v@.skip(j as int));
    }
    j
}

/// A string body read from position `i` (just after an opening quote):
/// the decoded text and the position after the closing quote.
fn parse_string_body(v: &Vec<char>, i: usize) -> (r: Option<(Vec<char>, usize)>)
    requires
        i <= v.len(),
    ensures
        match r {
            Some((t, j)) => i <= j <= v.len() && spec_parse_string_body(v@.skip(i as int)) == Some(
                (t@, v@.skip(j as int)),
            ),
            None => spec_parse_string_body(v@.skip(i as int)) is None,
        },
    decreases v.len() - i,
{
    let ghost s = v@.skip(i as int);
    if i == v.len() {
        return None;
    }
    let c = v[i];
    proof {
        assert(s[0] == c);
    }
    if c == '"' {
        proof {
            assert(s.drop_first() =~= v@.skip(i as int + 1));
        }
        return Some((Vec::new(), i + 1));
    }
    if c == '\\' {
        if v.len() - i < 2 {
            return None;
        }
        let e = v[i + 1];
        proof {
            assert(s[1] == e);
        }
        if e == 'u' {
            if v.len() - i < 6 {
                return None;
            }
            proof {
                assert(s[2] == v@[i as int + 2]);
                assert(s[3] == v@[i as int + 3]);
                assert(s[4] == v@[i as int + 4]);
                assert(s[5] == v@[i as int + 5]);
            }
            let h2 = match hex_val(v[i + 2]) {
                Some(x) => x,
                None => {
                    return None;
                },
            };
            let h3 = match hex_val(v[i + 3]) {
                Some(x) => x,
                None => {
                    return None;
                },
            };
            let h4 = match hex_val(v[i + 4]) {
                Some(x) => x,
                None => {
                    return None;
                },
            };
            let h5 = match hex_val(v[i + 5]) {
                Some(x) => x,
                None => {
                    return None;
                },
            };
            let code: u32 = 4096 * (h2 as u32) + 256 * (h3 as u32) + 16 * (h4 as u32) + (
            h5 as u32);
            if code >= 0xD800 && code < 0xE000 {
                return None;
            }
            let cc = match char_from_code(code) {
                Some(x) => x,
                None => {
                    proof {
                        assert(false);
                    }
                    ' '
                },
            };
            proof {
                assert(s.skip(6) =~= v@.skip(i as int + 6));
            }
            match parse_string_body(v, i + 6) {
                Some((t, j)) => {
                    let mut out = t;
                    out.insert(0, cc);
                    proof {
                        assert(out@ =~= seq![cc] + out@.drop_first());
                    }
                    Some((out, j))
                },
                None => None,
            }
        } else {
            match escape_code(e) {
                Some(c2) => {
                    proof {
                        assert(s.skip(2) =~= v@.skip(i as int + 2));
                    }
                    match parse_string_body(v, i + 2) {
                        Some((t, j)) => {
                            let mut out = t;
                            out.insert(0, c2);
                            proof {
                                assert(out@ =~= seq![c2] + out@.drop_first());
                            }
                            Some((out, j))
                        },
                        None => None,
                    }
                },
                None => None,
            }
        }
    } else if (c as u32) < 0x20 {
        None
    } else {
        proof {
            assert(s.drop_first() =~= v@.skip(i as int + 1));
        }
        match parse_string_body(v, i + 1) {
            Some((t, j)) => {
                let mut out = t;
                out.insert(0, c);
                proof {
                    assert(out@ =~= seq![c] + out@.drop_first());
                }
                Some((out, j))
            },
            None => None,
        }
    }
}

/// One `"key": "value"` member read from position `i`.
fn parse_member(v: &Vec<char>, i: usize) -> (r: Option<((Vec<char>, Vec<char>), usize)>)
    requires
        i <= v.len(),
    ensures
        match r {
            Some(((k, val), j)) => i <= j <= v.len() && spec_parse_member(v@.skip(i as int))
                == Some(((k@, val@), v@.skip(j as int))),
            None => spec_parse_member(v@.skip(i as int)) is None,
        },
{
    let ghost s = v@.skip(i as int);
    if i == v.len() {
        return None;
    }
    if v[i] != '"' {
        proof {
            assert(s[0] != '"');
        }
        return None;
    }
    proof {
        assert(s[0] == '"');
        assert(s.drop_first() =~= v@.skip(i as int + 1));
    }
    let (key, j1) = match parse_string_body(v, i + 1) {
        Some(x) => x,
        None => {
            return None;
        },
    };
    let j2 = skip_ws(v, j1);
    if j2 == v.len() {
        return None;
    }
    if v[j2] != ':' {
        proof {
            assert(v@.skip(j2 as int)[0] == v@[j2 as int]);
        }
        return None;
    }
    proof {
        assert(v@.skip(j2 as int)[0] == ':');
        assert(v@.skip(j2 as int).drop_first() =~= v@.skip(j2 as int + 1));
    }
    let j3 = skip_ws(v, j2 + 1);
    if j3 == v.len() {
        return None;
    }
    if v[j3] != '"' {
        proof {
            assert(v@.skip(j3 as int)[0] == v@[j3 as int]);
        }
        return None;
    }
    proof {
        assert(v@.skip(j3 as int)[0] == '"');
        assert(v@.skip(j3 as int).drop_first() =~= v@.skip(j3 as int + 1));
    }
    match parse_string_body(v, j3 + 1) {
        Some((val, j4)) => Some(((key, val), j4)),
        None => None,
    }
}

fn is_key(k: &Vec<char>, c0: char, c1: char, c2: char, c3: char) -> (r: bool)
    ensures
        r == (k@ == seq![c0, c1, c2, c3]),
{
    let r = k.len() == 4 && k[0] == c0 && k[1] == c1 && k[2] == c2 && k[3] == c3;
    proof {
        if r {
            assert(k@ =~= seq![c0, c1, c2, c3]);
        }
    }
    r
}

/// One entry object read from position `i`.
fn parse_object(v: &Vec<char>, i: usize) -> (r: Option<(Message, usize)>)
    requires
        i <= v.len(),
    ensures
        match r {
            Some((m, j)) => i < j <= v.len() && spec_parse_object(v@.skip(i as int)) == Some(
                (m@, v@.skip(j as int)),
            ),
            None => spec_parse_object(v@.skip(i as int)) is None,
        },
{
    let ghost s = v@.skip(i as int);
    if i == v.len() {
        return None;
    }
    if v[i] != '{' {
        proof {
            assert(s[0] != '{');
        }
        return None;
    }
    proof {
        assert(s[0] == '{');
        assert(s.drop_first() =~= v@.skip(i as int + 1));
    }
    let j1 = skip_ws(v, i + 1);
    let ((k1, v1), j2) = match parse_member(v, j1) {
        Some(x) => x,
        None => {
            return None;
        },
    };
    let j3 = skip_ws(v, j2);
    if j3 == v.len() {
        return None;
    }
    if v[j3] != ',' {
        proof {
            assert(v@.skip(j3 as int)[0] == v@[j3 as int]);
        }
        return None;
    }
    proof {
        assert(v@.skip(j3 as int)[0] == ',');
        assert(v@.skip(j3 as int).drop_first() =~= v@.skip(j3 as int + 1));
    }
    let j4 = skip_ws(v, j3 + 1);
    let ((k2, v2), j5) = match parse_member(v, j4) {
        Some(x) => x,
        None => {
            return None;
        },
    };
    let j6 = skip_ws(v, j5);
    if j6 == v.len() {
        return None;
    }
    if v[j6] != '}' {
        proof {
            assert(v@.skip(j6 as int)[0] == v@[j6 as int]);
        }
        return None;
    }
    proof {
        assert(v@.skip(j6 as int)[0] == '}');
        assert(v@.skip(j6 as int).drop_first() =~= v@.skip(j6 as int + 1));
    }
    let k1_is_date = is_key(&k1, 'd', 'a', 't', 'e');
    let k1_is_text = is_key(&k1, 't', 'e', 'x', 't');
    let k2_is_date = is_key(&k2, 'd', 'a', 't', 'e');
    let k2_is_text = is_key(&k2, 't', 'e', 'x', 't');
    proof {
        assert(date_key() == seq!['d', 'a', 't', 'e']);
        assert(text_key() == seq!['t', 'e', 'x', 't']);
    }
    let (ds, ts) = if k1_is_date && k2_is_text {
        (v1, v2)
    } else if k1_is_text && k2_is_date {
        (v2, v1)
    } else {
        return None;
    };
    let date = match crate::json_date_format::parse_date_chars(ds.as_slice()) {
        Some(d) => d,
        None => {
            return None;
        },
    };
    let text = crate::text::chars_to_string(&ts);
    let m = Message { date, text };
    proof {
        assert(m@ =~= MessageView { date: date, text: ts@ });
    }
    Some((m, j6 + 1))
}

/// The array's remaining entries read from position `i`, after one entry.
fn parse_rest_elems(v: &Vec<char>, i: usize) -> (r: Option<(Vec<Message>, usize)>)
    requires
        i <= v.len(),
    ensures
        match r {
            Some((out, j)) => i <= j <= v.len() && spec_parse_rest_elems(v@.skip(i as int))
                == Some((crate::history::msgs_view(out@), v@.skip(j as int))),
            None => spec_parse_rest_elems(v@.skip(i as int)) is None,
        },
    decreases v.len() - i,
{
    let ghost s = v@.skip(i as int);
    let j1 = skip_ws(v, i);
    if j1 == v.len() {
        return None;
    }
    let c = v[j1];
    proof {
        assert(v@.skip(j1 as int)[0] == c);
    }
    if c == ']' {
        proof {
            assert(v@.skip(j1 as int).drop_first() =~= v@.skip(j1 as int + 1));
            assert(crate::history::msgs_view(Seq::<Message>::empty()) =~= Seq::<
                MessageView,
            >::empty());
        }
        let out: Vec<Message> = Vec::new();
        return Some((out, j1 + 1));
    }
    if c == ',' {
        proof {
            assert(v@.skip(j1 as int).drop_first() =~= v@.skip(j1 as int + 1));
        }
        let j2 = skip_ws(v, j1 + 1);
        match parse_object(v, j2) {
            Some((m, j3)) => {
                proof {
                    assert(v@.skip(j3 as int).len() < s.len());
                }
                match parse_rest_elems(v, j3) {
                    Some((ms, j4)) => {
                        let mut out = ms;
                        out.insert(0, m);
                        proof {
                            assert(crate::history::msgs_view(out@) =~= seq![m@]
                                + crate::history::msgs_view(out@.drop_first()));
                        }
                        Some((out, j4))
                    },
                    None => None,
                }
            },
            None => None,
        }
    } else {
        None
    }
}

/// The store described by a whole document, or `None` when the text is not
/// a well-formed document.
pub fn parse_document(doc: &str) -> (r: Option<Vec<Message>>)
    ensures
        match r {
            Some(out) => spec_parse_document(doc@) == Some(crate::history::msgs_view(out@)),
            None => spec_parse_document(doc@) is None,
        },
{
    let v = crate::text::str_to_chars(doc);
    proof {
        assert(v@.skip(0) =~= doc@);
    }
    let j0 = skip_ws(&v, 0);
    if j0 == v.len() {
        return None;
    }
    if v[j0] != '[' {
        proof {
            assert(v@.skip(j0 as int)[0] == v@[j0 as int]);
        }
        return None;
    }
    proof {
        assert(v@.skip(j0 as int)[0] == '[');
        assert(v@.skip(j0 as int).drop_first() =~= v@.skip(j0 as int + 1));
    }
    let j1 = skip_ws(&v, j0 + 1);
    if j1 == v.len() {
        return None;
    }
    if v[j1] == ']' {
        proof {
            assert(v@.skip(j1 as int)[0] == ']');
            assert(v@.skip(j1 as int).drop_first() =~= v@.skip(j1 as int + 1));
        }
        let j2 = skip_ws(&v, j1 + 1);
        if j2 == v.len() {
            proof {
                assert(v@.skip(j2 as int).len() == 0);
                assert(crate::history::msgs_view(Seq::<Message>::empty()) =~= Seq::<
                    MessageView,
                >::empty());
            }
            let out: Vec<Message> = Vec::new();
            return Some(out);
        } else {
            proof {
                assert(v@.skip(j2 as int).len() > 0);
            }
            return None;
        }
    }
    proof {
        assert(v@.skip(j1 as int)[0] == v@[j1 as int]);
    }
    let (m, j2) = match parse_object(&v, j1) {
        Some(x) => x,
        None => {
            return None;
        },
    };
    let (ms, j3) = match parse_rest_elems(&v, j2) {
        Some(x) => x,
        None => {
            return None;
        },
    };
    let j4 = skip_ws(&v, j3);
    if j4 == v.len() {
        let mut out = ms;
        out.insert(0, m);
        proof {
            assert(v@.skip(j4 as int).len() == 0);
            assert(crate::history::msgs_view(out@) =~= seq![m@] + crate::history::msgs_view(
                out@.drop_first(),
            ));
        }
        Some(out)
    } else {
        proof {
            assert(v@.skip(j4 as int).len() > 0);
        }
        None
    }
}

} // verus!
