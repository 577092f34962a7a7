//! Reading back the JSON that the export writes: a reader for JSON strings and for an
//! array of objects whose values are strings, and the lemmas that the export's text
//! reads back as the table it was made from.
use vstd::prelude::*;

use crate::compute::cell_or_empty;
use crate::export::{existing_rows, join, json_escape, json_escape_char, json_field, json_object, is_control, hex_digit, hex4};

verus! {

/// JSON whitespace.
pub open spec fn is_json_ws(c: char) -> bool {
    c == ' ' || c == '\n' || c == '\r' || c == '\t'
}

/// The text after its leading whitespace.
pub open spec fn skip_ws(t: Seq<char>) -> Seq<char>
    decreases t.len(),
{
    if t.len() > 0 && is_json_ws(t[0]) {
        skip_ws(t.drop_first())
    } else {
        t
    }
}

/// The character a one-letter escape (after the backslash) stands for.
pub open spec fn short_escape(e: char) -> Option<char> {
    if e == '"' {
        Some('"')
    } else if e == '\\' {
        Some('\\')
    } else if e == '/' {
        Some('/')
    } else if e == 'b' {
        Some('\x08')
    } else if e == 'f' {
        Some('\x0c')
    } else if e == 'n' {
        Some('\n')
    } else if e == 'r' {
        Some('\r')
    } else if e == 't' {
        Some('\t')
    } else {
        None
    }
}

/// Value of a hexadecimal digit (either case).
pub open spec fn hex_value(c: char) -> Option<nat> {
    if '0' <= c && c <= '9' {
        Some((c as nat - '0' as nat) as nat)
    } else if 'a' <= c && c <= 'f' {
        Some((c as nat - 'a' as nat + 10) as nat)
    } else if 'A' <= c && c <= 'F' {
        Some((c as nat - 'A' as nat + 10) as nat)
    } else {
        None
    }
}

/// Value of the four hexadecimal digits that start `t`.
pub open spec fn hex4_value(t: Seq<char>) -> Option<nat> {
    if t.len() >= 4 {
        match (hex_value(t[0]), hex_value(t[1]), hex_value(t[2]), hex_value(t[3])) {
            (Some(a), Some(b), Some(c), Some(d)) => Some(4096 * a + 256 * b + 16 * c + d),
            _ => None,
        }
    } else {
        None
    }
}

/// Reads one escape sequence, given the text after its backslash: the character it
/// stands for and the text after it. `\uXXXX` gives that code point; a high surrogate
/// must be followed by `\u` and a low surrogate, the pair giving one character; a lone
/// surrogate is refused.
#[verifier::opaque]
pub open spec fn read_escape(u: Seq<char>) -> Option<(char, Seq<char>)> {
    if u.len() == 0 {
        None
    } else if u[0] == 'u' {
        match hex4_value(u.drop_first()) {
            Some(v) => if 0xD800 <= v < 0xDC00 {
                let w_text = u.subrange(5, u.len() as int);
                if w_text.len() >= 2 && w_text[0] == '\\' && w_text[1] == 'u' {
                    match hex4_value(w_text.subrange(2, w_text.len() as int)) {
                        Some(w) => if 0xDC00 <= w < 0xE000 {
                            Some(
                                (
                                    (0x10000 + (v - 0xD800) * 0x400 + (w - 0xDC00)) as char,
                                    w_text.subrange(6, w_text.len() as int),
                                ),
                            )
                        } else {
                            None
                        },
                        None => None,
                    }
                } else {
                    None
                }
            } else if 0xDC00 <= v < 0xE000 {
                None
            } else {
                Some((v as char, u.subrange(5, u.len() as int)))
            },
            None => None,
        }
    } else {
        match short_escape(u[0]) {
            Some(c) => Some((c, u.drop_first())),
            None => None,
        }
    }
}

/// Reads the rest of a JSON string after its opening quote: the characters it stands
/// for, and the text after the closing quote. Unescaped control characters below U+0020
/// are refused, as JSON requires.
#[verifier::opaque]
pub open spec fn read_string_body(t: Seq<char>) -> Option<(Seq<char>, Seq<char>)>
    decreases t.len(),
{
    if t.len() == 0 {
        None
    } else if t[0] == '"' {
        Some((Seq::empty(), t.drop_first()))
    } else if t[0] == '\\' {
        match read_escape(t.drop_first()) {
            Some((c, rest)) => if rest.len() < t.len() {
                match read_string_body(rest) {
                    Some((s, r)) => Some((seq![c] + s, r)),
                    None => None,
                }
            } else {
                None
            },
            None => None,
        }
    } else if (t[0] as u32) < 0x20 {
        None
    } else {
        match read_string_body(t.drop_first()) {
            Some((s, r)) => Some((seq![t[0]] + s, r)),
            None => None,
        }
    }
}

/// Reads a JSON string at the start of `t`: its characters and the text after it.
pub open spec fn read_json_string(t: Seq<char>) -> Option<(Seq<char>, Seq<char>)> {
    if t.len() > 0 && t[0] == '"' {
        read_string_body(t.drop_first())
    } else {
        None
    }
}

proof fn lemma_hex_digit_value(d: u32)
    requires
        d < 16,
    ensures
        hex_value(hex_digit(d)) == Some(d as nat),
{
}

proof fn lemma_control_hex(v: u32)
    requires
        v <= 0x9F,
    ensures
        hex4_value(hex4(v)) == Some(v as nat),
{
    lemma_hex_digit_value(((v / 4096) % 16) as u32);
    lemma_hex_digit_value(((v / 256) % 16) as u32);
    lemma_hex_digit_value(((v / 16) % 16) as u32);
    lemma_hex_digit_value((v % 16) as u32);
    assert(v / 4096 == 0);
    assert(v / 256 == 0);
    assert(v / 16 < 16);
    assert(16 * ((v / 16) % 16) + v % 16 == v);
}

/// A backslash escape followed by a string body reads as the escaped character followed
/// by what the body reads as.
proof fn lemma_read_backslash(t: Seq<char>, c: char, y: Seq<char>, s: Seq<char>, r: Seq<char>)
    requires
        t.len() > 0,
        t[0] == '\\',
        read_escape(t.drop_first()) == Some((c, y)),
        y.len() < t.len(),
        read_string_body(y) == Some((s, r)),
    ensures
        read_string_body(t) == Some((seq![c] + s, r)),
{
    reveal(read_string_body);
}

/// An unescaped character that may stand in a string, followed by a string body.
proof fn lemma_read_plain(c: char, y: Seq<char>, s: Seq<char>, r: Seq<char>)
    requires
        c != '"',
        c != '\\',
        !is_control(c),
        read_string_body(y) == Some((s, r)),
    ensures
        read_string_body(seq![c] + y) == Some((seq![c] + s, r)),
{
    reveal(read_string_body);
    assert((seq![c] + y).drop_first() =~= y);
}

proof fn lemma_short_escape(e: char, c: char, y: Seq<char>)
    requires
        short_escape(e) == Some(c),
    ensures
        read_escape(seq![e] + y) == Some((c, y)),
{
    reveal(read_escape);
    assert((seq![e] + y).drop_first() =~= y);
}

proof fn lemma_unicode_escape(v: u32, y: Seq<char>)
    requires
        v <= 0x9F,
    ensures
        read_escape(seq!['u'] + hex4(v) + y) == Some(((v as nat) as char, y)),
{
    reveal(read_escape);
    let u = seq!['u'] + hex4(v) + y;
    lemma_control_hex(v);
    assert(u.drop_first() =~= hex4(v) + y);
    assert(hex4_value(u.drop_first()) == hex4_value(hex4(v)));
    assert(u.subrange(5, u.len() as int) =~= y);
}

/// An escaped character followed by a string body reads as that character followed by
/// what the body reads as.
proof fn lemma_read_escaped_char(c: char, y: Seq<char>, s: Seq<char>, r: Seq<char>)
    requires
        read_string_body(y) == Some((s, r)),
    ensures
        read_string_body(json_escape_char(c) + y) == Some((seq![c] + s, r)),
{
    let t = json_escape_char(c) + y;
    if c == '"' || c == '\\' || c == '\n' || c == '\r' || c == '\t' {
        let e = t[1];
        assert(t.drop_first() =~= seq![e] + y);
        lemma_short_escape(e, c, y);
        lemma_read_backslash(t, c, y, s, r);
    } else if is_control(c) {
        let v = c as u32;
        assert(t.drop_first() =~= seq!['u'] + hex4(v) + y);
        lemma_unicode_escape(v, y);
        assert((v as nat) as char == c);
        lemma_read_backslash(t, c, y, s, r);
    } else {
        assert(t =~= seq![c] + y);
        lemma_read_plain(c, y, s, r);
    }
}

/// Escaping a concatenation escapes each part.
pub proof fn lemma_json_escape_append(a: Seq<char>, b: Seq<char>)
    ensures
        json_escape(a + b) == json_escape(a) + json_escape(b),
    decreases b.len(),
{
    if b.len() == 0 {
        assert(a + b =~= a);
        assert(json_escape(a) + json_escape(b) =~= json_escape(a));
    } else {
        assert((a + b).drop_last() =~= a + b.drop_last());
        assert((a + b).last() == b.last());
        lemma_json_escape_append(a, b.drop_last());
        assert(json_escape(a + b) =~= json_escape(a) + json_escape(b));
    }
}

/// A JSON-escaped text, its closing quote and anything after: the body reads back as the
/// text, and the reading stops right after the quote.
pub proof fn lemma_read_escaped_string(s: Seq<char>, x: Seq<char>)
    ensures
        read_string_body(json_escape(s) + seq!['"'] + x) == Some((s, x)),
    decreases s.len(),
{
    reveal(read_string_body);
    let t = json_escape(s) + seq!['"'] + x;
    if s.len() == 0 {
        assert(t =~= seq!['"'] + x);
        assert(t.drop_first() =~= x);
    } else {
        let rest = s.drop_first();
        lemma_read_escaped_string(rest, x);
        assert(s =~= seq![s[0]] + rest);
        lemma_json_escape_append(seq![s[0]], rest);
        let one = seq![s[0]];
        assert(one.drop_last() =~= Seq::<char>::empty());
        assert(one.last() == s[0]);
        assert(json_escape(one.drop_last()) == Seq::<char>::empty());
        assert(json_escape(one) == json_escape(one.drop_last()) + json_escape_char(one.last()));
        assert(json_escape(one) =~= json_escape_char(s[0]));
        let y = json_escape(rest) + seq!['"'] + x;
        assert(t =~= json_escape_char(s[0]) + y);
        lemma_read_escaped_char(s[0], y, rest, x);
    }
}

/// A quoted, escaped text read as a JSON string gives the text back.
pub proof fn lemma_read_quoted(s: Seq<char>, x: Seq<char>)
    ensures
        read_json_string(seq!['"'] + json_escape(s) + seq!['"'] + x) == Some((s, x)),
{
    let t = seq!['"'] + json_escape(s) + seq!['"'] + x;
    assert(t.drop_first() =~= json_escape(s) + seq!['"'] + x);
    lemma_read_escaped_string(s, x);
}

/// Reads `"key": "value"` (whitespace allowed around the colon): the pair and the text
/// after it.
#[verifier::opaque]
pub open spec fn read_pair(t: Seq<char>) -> Option<((Seq<char>, Seq<char>), Seq<char>)> {
    match read_json_string(t) {
        Some((k, r)) => {
            let r1 = skip_ws(r);
            if r1.len() > 0 && r1[0] == ':' {
                match read_json_string(skip_ws(r1.drop_first())) {
                    Some((v, r2)) => Some(((k, v), r2)),
                    None => None,
                }
            } else {
                None
            }
        },
        None => None,
    }
}

/// Reads the members of an object after its `{`, up to and including the closing `}`:
/// one or more pairs separated by commas, whitespace allowed between the parts.
#[verifier::opaque]
pub open spec fn read_members(t: Seq<char>) -> Option<(Seq<(Seq<char>, Seq<char>)>, Seq<char>)>
    decreases t.len(),
{
    match read_pair(skip_ws(t)) {
        Some((kv, r)) => {
            let r1 = skip_ws(r);
            if r1.len() > 0 && r1[0] == '}' {
                Some((seq![kv], r1.drop_first()))
            } else if r1.len() > 0 && r1[0] == ',' && r1.len() <= t.len() {
                match read_members(r1.drop_first()) {
                    Some((kvs, r2)) => Some((seq![kv] + kvs, r2)),
                    None => None,
                }
            } else {
                None
            }
        },
        None => None,
    }
}

/// Reads an object whose values are strings (after leading whitespace): its pairs in
/// order, and the text after it.
#[verifier::opaque]
pub open spec fn read_object(t: Seq<char>) -> Option<(Seq<(Seq<char>, Seq<char>)>, Seq<char>)> {
    let r = skip_ws(t);
    if r.len() > 0 && r[0] == '{' {
        let r1 = skip_ws(r.drop_first());
        if r1.len() > 0 && r1[0] == '}' {
            Some((Seq::empty(), r1.drop_first()))
        } else {
            read_members(r.drop_first())
        }
    } else {
        None
    }
}

/// Reads the elements of an array after its `[`, up to and including the closing `]`:
/// one or more such objects separated by commas.
#[verifier::opaque]
pub open spec fn read_elements(t: Seq<char>) -> Option<(Seq<Seq<(Seq<char>, Seq<char>)>>, Seq<char>)>
    decreases t.len(),
{
    match read_object(t) {
        Some((o, r)) => {
            let r1 = skip_ws(r);
            if r1.len() > 0 && r1[0] == ']' {
                Some((seq![o], r1.drop_first()))
            } else if r1.len() > 0 && r1[0] == ',' && r1.len() <= t.len() {
                match read_elements(r1.drop_first()) {
                    Some((os, r2)) => Some((seq![o] + os, r2)),
                    None => None,
                }
            } else {
                None
            }
        },
        None => None,
    }
}

/// Reads a whole text as a JSON array of objects with string values: the objects, each
/// as its key-value pairs in order; `None` when the text is not such an array.
#[verifier::opaque]
pub open spec fn read_json_table(t: Seq<char>) -> Option<Seq<Seq<(Seq<char>, Seq<char>)>>> {
    let r = skip_ws(t);
    if r.len() > 0 && r[0] == '[' {
        let r1 = skip_ws(r.drop_first());
        if r1.len() > 0 && r1[0] == ']' {
            if skip_ws(r1.drop_first()).len() == 0 {
                Some(Seq::empty())
            } else {
                None
            }
        } else {
            match read_elements(r.drop_first()) {
                Some((objs, rest)) => if skip_ws(rest).len() == 0 {
                    Some(objs)
                } else {
                    None
                },
                None => None,
            }
        }
    } else {
        None
    }
}

/// The field texts of a list of pairs.
pub open spec fn field_texts(pairs: Seq<(Seq<char>, Seq<char>)>) -> Seq<Seq<char>> {
    pairs.map_values(|p: (Seq<char>, Seq<char>)| json_field(p.0, p.1))
}

/// An object's text as the export writes it.
pub open spec fn object_text(pairs: Seq<(Seq<char>, Seq<char>)>) -> Seq<char> {
    seq![' ', ' ', '{'] + join(field_texts(pairs), seq![',', ' ']) + seq!['}']
}

/// The object texts of a list of objects.
pub open spec fn object_texts(objs: Seq<Seq<(Seq<char>, Seq<char>)>>) -> Seq<Seq<char>> {
    objs.map_values(|ps: Seq<(Seq<char>, Seq<char>)>| object_text(ps))
}

proof fn lemma_skip_ws_cons(w: char, y: Seq<char>)
    requires
        is_json_ws(w),
    ensures
        skip_ws(seq![w] + y) == skip_ws(y),
{
    assert((seq![w] + y).drop_first() =~= y);
}

proof fn lemma_skip_ws_none(t: Seq<char>)
    requires
        t.len() > 0,
        !is_json_ws(t[0]),
    ensures
        skip_ws(t) == t,
{
}

/// A join of two or more parts is the first part, the separator and the join of the rest.
pub proof fn lemma_join_front(parts: Seq<Seq<char>>, sep: Seq<char>)
    requires
        parts.len() >= 2,
    ensures
        join(parts, sep) == parts[0] + sep + join(parts.drop_first(), sep),
    decreases parts.len(),
{
    if parts.len() == 2 {
        assert(parts.drop_last().len() == 1);
        assert(parts.drop_first().len() == 1);
        assert(join(parts.drop_last(), sep) == parts[0]);
        assert(join(parts.drop_first(), sep) == parts[1]);
        assert(join(parts, sep) =~= parts[0] + sep + join(parts.drop_first(), sep));
    } else {
        lemma_join_front(parts.drop_last(), sep);
        assert(parts.drop_last().drop_first() =~= parts.drop_first().drop_last());
        assert(parts.drop_first().last() == parts.last());
        assert(join(parts, sep) =~= parts[0] + sep + join(parts.drop_first(), sep));
    }
}

proof fn lemma_read_field(k: Seq<char>, v: Seq<char>, x: Seq<char>)
    ensures
        read_pair(json_field(k, v) + x) == Some(((k, v), x)),
{
    reveal(read_pair);
    let after_key = seq![':', ' ', '"'] + json_escape(v) + seq!['"'] + x;
    assert(json_field(k, v) + x =~= seq!['"'] + json_escape(k) + seq!['"'] + after_key);
    lemma_read_quoted(k, after_key);
    lemma_skip_ws_none(after_key);
    let value_part = seq!['"'] + json_escape(v) + seq!['"'] + x;
    assert(after_key.drop_first() =~= seq![' '] + value_part);
    lemma_skip_ws_cons(' ', value_part);
    lemma_skip_ws_none(value_part);
    lemma_read_quoted(v, x);
}

proof fn lemma_members_last(t: Seq<char>, kv: (Seq<char>, Seq<char>), r: Seq<char>)
    requires
        read_pair(skip_ws(t)) == Some((kv, r)),
        r.len() > 0,
        r[0] == '}',
    ensures
        read_members(t) == Some((seq![kv], r.drop_first())),
{
    reveal(read_members);
    lemma_skip_ws_none(r);
}

proof fn lemma_members_more(
    t: Seq<char>,
    kv: (Seq<char>, Seq<char>),
    r: Seq<char>,
    kvs: Seq<(Seq<char>, Seq<char>)>,
    r2: Seq<char>,
)
    requires
        read_pair(skip_ws(t)) == Some((kv, r)),
        r.len() > 0,
        r[0] == ',',
        r.len() <= t.len(),
        read_members(r.drop_first()) == Some((kvs, r2)),
    ensures
        read_members(t) == Some((seq![kv] + kvs, r2)),
{
    reveal(read_members);
    lemma_skip_ws_none(r);
}

/// The members of an exported object, then its closing brace, read back as its pairs,
/// with or without a space before them.
proof fn lemma_read_members(pairs: Seq<(Seq<char>, Seq<char>)>, x: Seq<char>)
    requires
        pairs.len() > 0,
    ensures
        read_members(join(field_texts(pairs), seq![',', ' ']) + seq!['}'] + x) == Some((pairs, x)),
        read_members(seq![' '] + join(field_texts(pairs), seq![',', ' ']) + seq!['}'] + x) == Some((pairs, x)),
    decreases pairs.len(),
{
    let fields = field_texts(pairs);
    let sep = seq![',', ' '];
    let t = join(fields, sep) + seq!['}'] + x;
    let t2 = seq![' '] + t;
    let k = pairs[0].0;
    let v = pairs[0].1;
    assert(fields[0] == json_field(k, v));
    lemma_skip_ws_cons(' ', t);
    assert(t2 =~= seq![' '] + join(fields, sep) + seq!['}'] + x);
    if pairs.len() == 1 {
        assert(join(fields, sep) == fields[0]);
        let r = seq!['}'] + x;
        assert(t =~= json_field(k, v) + r);
        lemma_read_field(k, v, r);
        assert(t[0] == '"');
        lemma_skip_ws_none(t);
        assert(r.drop_first() =~= x);
        assert(seq![pairs[0]] =~= pairs);
        lemma_members_last(t, pairs[0], r);
        lemma_members_last(t2, pairs[0], r);
    } else {
        lemma_join_front(fields, sep);
        let rest = pairs.drop_first();
        assert(fields.drop_first() =~= field_texts(rest));
        lemma_read_members(rest, x);
        let r = sep + join(field_texts(rest), sep) + seq!['}'] + x;
        assert(t =~= json_field(k, v) + r);
        lemma_read_field(k, v, r);
        assert(t[0] == '"');
        lemma_skip_ws_none(t);
        assert(r.drop_first() =~= seq![' '] + join(field_texts(rest), sep) + seq!['}'] + x);
        assert(seq![pairs[0]] + rest =~= pairs);
        lemma_members_more(t, pairs[0], r, rest, x);
        lemma_members_more(t2, pairs[0], r, rest, x);
    }
}

/// An exported object followed by any text reads back as its pairs, with or without a
/// line break before it.
proof fn lemma_read_object(pairs: Seq<(Seq<char>, Seq<char>)>, x: Seq<char>)
    requires
        pairs.len() > 0,
    ensures
        read_object(object_text(pairs) + x) == Some((pairs, x)),
        read_object(seq!['\n'] + object_text(pairs) + x) == Some((pairs, x)),
{
    reveal(read_object);
    let sep = seq![',', ' '];
    let j = join(field_texts(pairs), sep);
    let t = object_text(pairs) + x;
    let inner = j + seq!['}'] + x;
    let braced = seq!['{'] + inner;
    assert(t =~= seq![' '] + (seq![' '] + braced));
    lemma_skip_ws_cons(' ', seq![' '] + braced);
    lemma_skip_ws_cons(' ', braced);
    lemma_skip_ws_none(braced);
    assert(braced.drop_first() =~= inner);
    lemma_join_nonempty_starts_with_quote(pairs);
    assert(inner[0] == '"');
    lemma_skip_ws_none(inner);
    lemma_read_members(pairs, x);
    lemma_skip_ws_cons('\n', t);
    assert(seq!['\n'] + object_text(pairs) + x =~= seq!['\n'] + t);
}

/// The joined fields of a non-empty object start with a quote.
proof fn lemma_join_nonempty_starts_with_quote(pairs: Seq<(Seq<char>, Seq<char>)>)
    requires
        pairs.len() > 0,
    ensures
        join(field_texts(pairs), seq![',', ' ']).len() > 0,
        join(field_texts(pairs), seq![',', ' '])[0] == '"',
{
    let fields = field_texts(pairs);
    assert(fields[0] == json_field(pairs[0].0, pairs[0].1));
    if pairs.len() == 1 {
        assert(join(fields, seq![',', ' ']) == fields[0]);
    } else {
        lemma_join_front(fields, seq![',', ' ']);
    }
}

/// A line break, the exported objects joined by `,` and line breaks, a line break and
/// the closing bracket read back as the objects.
proof fn lemma_read_elements(objs: Seq<Seq<(Seq<char>, Seq<char>)>>, x: Seq<char>)
    requires
        objs.len() > 0,
        forall|i: int| 0 <= i < objs.len() ==> #[trigger] objs[i].len() > 0,
    ensures
        read_elements(seq!['\n'] + join(object_texts(objs), seq![',', '\n']) + seq!['\n', ']'] + x)
            == Some((objs, x)),
    decreases objs.len(),
{
    reveal(read_elements);
    let texts = object_texts(objs);
    let sep = seq![',', '\n'];
    let t = seq!['\n'] + join(texts, sep) + seq!['\n', ']'] + x;
    assert(texts[0] == object_text(objs[0]));
    if objs.len() == 1 {
        assert(join(texts, sep) == texts[0]);
        let r = seq!['\n', ']'] + x;
        assert(t =~= seq!['\n'] + object_text(objs[0]) + r);
        lemma_read_object(objs[0], r);
        let close = seq![']'] + x;
        assert(r =~= seq!['\n'] + close);
        lemma_skip_ws_cons('\n', close);
        lemma_skip_ws_none(close);
        assert(close.drop_first() =~= x);
        assert(seq![objs[0]] =~= objs);
    } else {
        lemma_join_front(texts, sep);
        let rest = objs.drop_first();
        assert(texts.drop_first() =~= object_texts(rest));
        assert forall|i: int| 0 <= i < rest.len() implies #[trigger] rest[i].len() > 0 by {
            assert(rest[i] == objs[i + 1]);
        }
        lemma_read_elements(rest, x);
        let r = sep + join(object_texts(rest), sep) + seq!['\n', ']'] + x;
        assert(t =~= seq!['\n'] + object_text(objs[0]) + r);
        lemma_read_object(objs[0], r);
        lemma_skip_ws_none(r);
        assert(r.drop_first() =~= seq!['\n'] + join(object_texts(rest), sep) + seq!['\n', ']'] + x);
        assert(seq![objs[0]] + rest =~= objs);
    }
}

/// The array the export writes for non-empty objects reads back as those objects.
pub proof fn lemma_read_table(objs: Seq<Seq<(Seq<char>, Seq<char>)>>)
    requires
        objs.len() > 0,
        forall|i: int| 0 <= i < objs.len() ==> #[trigger] objs[i].len() > 0,
    ensures
        read_json_table(seq!['[', '\n'] + join(object_texts(objs), seq![',', '\n']) + seq!['\n', ']', '\n'])
            == Some(objs),
{
    reveal(read_json_table);
    let texts = object_texts(objs);
    let sep = seq![',', '\n'];
    let j = join(texts, sep);
    let t = seq!['[', '\n'] + j + seq!['\n', ']', '\n'];
    lemma_skip_ws_none(t);
    let after = seq!['\n'] + j + seq!['\n', ']'] + seq!['\n'];
    assert(t.drop_first() =~= after);
    lemma_read_elements(objs, seq!['\n']);
    // The first element starts, after its indentation, with its brace.
    assert(texts[0] == object_text(objs[0]));
    let tail = if objs.len() == 1 {
        seq!['\n', ']', '\n']
    } else {
        sep + join(texts.drop_first(), sep) + seq!['\n', ']', '\n']
    };
    if objs.len() == 1 {
        assert(j == texts[0]);
    } else {
        lemma_join_front(texts, sep);
    }
    let braced = seq!['{'] + join(field_texts(objs[0]), seq![',', ' ']) + seq!['}'] + tail;
    assert(after =~= seq!['\n'] + (seq![' '] + (seq![' '] + braced)));
    lemma_skip_ws_cons('\n', seq![' '] + (seq![' '] + braced));
    lemma_skip_ws_cons(' ', seq![' '] + braced);
    lemma_skip_ws_cons(' ', braced);
    lemma_skip_ws_none(braced);
    lemma_skip_ws_cons('\n', Seq::<char>::empty());
    assert(seq!['\n'] + Seq::<char>::empty() =~= seq!['\n']);
}

/// The pairs an exported row reads back as: for each visible column, its header and the
/// row's cell (empty text where either is missing).
pub open spec fn row_pairs(headers: Seq<Seq<char>>, row: Seq<Seq<char>>, cols: Seq<usize>) -> Seq<(Seq<char>, Seq<char>)> {
    cols.map_values(|c: usize| (cell_or_empty(headers, c as int), cell_or_empty(row, c as int)))
}

/// The objects an export reads back as: one per listed row that exists, in listing order.
pub open spec fn exported_table(
    headers: Seq<Seq<char>>,
    rows: Seq<Seq<Seq<char>>>,
    filtered: Seq<usize>,
    cols: Seq<usize>,
) -> Seq<Seq<(Seq<char>, Seq<char>)>> {
    existing_rows(rows, filtered).map_values(|i: usize| row_pairs(headers, rows[i as int], cols))
}

/// An exported object is the object text of its row's pairs.
pub proof fn lemma_json_object_text(headers: Seq<Seq<char>>, row: Seq<Seq<char>>, cols: Seq<usize>)
    ensures
        json_object(headers, row, cols) == object_text(row_pairs(headers, row, cols)),
{
    assert(field_texts(row_pairs(headers, row, cols)) =~= cols.map_values(
        |c: usize| json_field(cell_or_empty(headers, c as int), cell_or_empty(row, c as int)),
    ));
}

} // verus!
