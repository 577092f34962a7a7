//! Character-level string utilities with their specifications.
use vstd::prelude::*;

use crate::order::lex_lt;

verus! {

/// The code point of each character, widened to `u64`.
pub open spec fn char_codes(s: Seq<char>) -> Seq<u64> {
    s.map_values(|c: char| (c as u32) as u64)
}

pub fn codes_of(s: &str) -> (res: Vec<u64>)
    ensures
        res@ == char_codes(s@),
{
    let mut out: Vec<u64> = Vec::new();
    for c in it: s.chars()
        invariant
            it.seq() == s@,
            out@ == char_codes(s@.take(it.index())),
    {
        let code = (c as u32) as u64;
        proof {
            assert(s@.take(it.index() + 1) == s@.take(it.index()).push(c));
            assert(char_codes(s@.take(it.index()).push(c)) =~= char_codes(s@.take(it.index())).push(code));
        }
        out.push(code);
    }
    proof {
        assert(s@.take(s@.len() as int) == s@);
    }
    out
}

/// The characters of a string, as a vector.
pub fn chars_of(s: &str) -> (res: Vec<char>)
    ensures
        res@ == s@,
{
    let mut out: Vec<char> = Vec::new();
    for c in it: s.chars()
        invariant
            it.seq() == s@,
            out@ == s@.take(it.index()),
    {
        proof {
            assert(s@.take(it.index() + 1) == s@.take(it.index()).push(c));
        }
        out.push(c);
    }
    proof {
        assert(s@.take(s@.len() as int) == s@);
    }
    out
}

/// Unicode lowercase mapping of a text, as computed by `str::to_lowercase`.
pub uninterp spec fn lowercase(s: Seq<char>) -> Seq<char>;

/// Unicode uppercase mapping of a text, as computed by `str::to_uppercase`.
pub uninterp spec fn uppercase(s: Seq<char>) -> Seq<char>;

/// Calls `str::to_lowercase`. Its result depends on the text alone, and is named
/// `lowercase`. Each character maps to one or more characters (std's documentation of
/// `char::to_lowercase`), so the result is empty exactly when the text is; nothing more
/// is claimed of it.
#[verifier::external_body]
pub(crate) fn to_lowercase(s: &str) -> (res: String)
    ensures
        res@ == lowercase(s@),
        res@.len() == 0 <==> s@.len() == 0,
{
    s.to_lowercase()
}

/// Calls `str::to_uppercase`. Its result depends on the text alone, and is named
/// `uppercase`; nothing more is claimed of it.
#[verifier::external_body]
pub(crate) fn to_uppercase(s: &str) -> (res: String)
    ensures
        res@ == uppercase(s@),
{
    s.to_uppercase()
}

/// Calls `String::push`: appends one character.
#[verifier::external_body]
pub(crate) fn push_char(s: &mut String, c: char)
    ensures
        final(s)@ == old(s)@.push(c),
{
    s.push(c)
}

/// Calls `String::pop`: removes the last character, if any.
#[verifier::external_body]
pub(crate) fn pop_char(s: &mut String)
    ensures
        final(s)@ == if old(s)@.len() == 0 {
            old(s)@
        } else {
            old(s)@.drop_last()
        },
{
    s.pop();
}

/// Whether two texts are equal.
pub fn same_text(a: &str, b: &str) -> (res: bool)
    ensures
        res == (a@ == b@),
{
    let x = chars_of(a);
    let y = chars_of(b);
    if x.len() != y.len() {
        return false;
    }
    let mut i: usize = 0;
    while i < x.len()
        invariant
            x@ == a@,
            y@ == b@,
            x.len() == y.len(),
            i <= x.len(),
            forall|k: int| 0 <= k < i ==> x@[k] == y@[k],
        decreases x.len() - i,
    {
        if x[i] != y[i] {
            proof {
                assert(a@[i as int] != b@[i as int]);
            }
            return false;
        }
        i = i + 1;
    }
    proof {
        assert(x@ =~= y@);
    }
    true
}

/// A new string holding `chars[from..to]`.
pub fn string_from_chars(chars: &Vec<char>, from: usize, to: usize) -> (res: String)
    requires
        from <= to <= chars.len(),
    ensures
        res@ == chars@.subrange(from as int, to as int),
{
    let mut out = String::new();
    let mut k = from;
    while k < to
        invariant
            from <= k <= to <= chars.len(),
            out@ == chars@.subrange(from as int, k as int),
        decreases to - k,
    {
        push_char(&mut out, chars[k]);
        proof {
            assert(chars@.subrange(from as int, k + 1) =~= chars@.subrange(from as int, k as int).push(chars@[k as int]));
        }
        k = k + 1;
    }
    out
}

/// ASCII lowercase of one character; other characters are unchanged.
pub open spec fn ascii_fold(c: char) -> char {
    if 'A' <= c && c <= 'Z' {
        ((c as u32) + 32) as char
    } else {
        c
    }
}

/// Equality of two texts when ASCII letters are compared without regard to case.
pub open spec fn eq_ignore_ascii_case(a: Seq<char>, b: Seq<char>) -> bool {
    a.len() == b.len() && forall|i: int| 0 <= i < a.len() ==> ascii_fold(#[trigger] a[i]) == ascii_fold(b[i])
}

pub fn fold_char(c: char) -> (res: char)
    ensures
        res == ascii_fold(c),
{
    if 'A' <= c && c <= 'Z' {
        let b: u8 = ((c as u32) + 32) as u8;
        b as char
    } else {
        c
    }
}

/// ASCII-case-insensitive equality of two character vectors.
pub fn chars_eq_ignore_ascii_case(a: &Vec<char>, b: &Vec<char>) -> (res: bool)
    ensures
        res == eq_ignore_ascii_case(a@, b@),
{
    if a.len() != b.len() {
        return false;
    }
    let mut i: usize = 0;
    while i < a.len()
        invariant
            a.len() == b.len(),
            i <= a.len(),
            forall|k: int| 0 <= k < i ==> ascii_fold(#[trigger] a@[k]) == ascii_fold(b@[k]),
        decreases a.len() - i,
    {
        if fold_char(a[i]) != fold_char(b[i]) {
            return false;
        }
        i = i + 1;
    }
    true
}

/// `needle` occurs in `hay` starting at position `k`.
pub open spec fn occurs_at(hay: Seq<char>, needle: Seq<char>, k: int) -> bool {
    &&& 0 <= k
    &&& k + needle.len() <= hay.len()
    &&& hay.subrange(k, k + needle.len()) == needle
}

/// `needle` occurs somewhere in `hay` (the empty text occurs in every text).
pub open spec fn contains_text(hay: Seq<char>, needle: Seq<char>) -> bool {
    exists|k: int| #[trigger] occurs_at(hay, needle, k)
}

/// Substring search.
pub fn contains_chars(hay: &Vec<char>, needle: &Vec<char>) -> (res: bool)
    ensures
        res == contains_text(hay@, needle@),
{
    if needle.len() > hay.len() {
        return false;
    }
    let last = hay.len() - needle.len();
    let mut k: usize = 0;
    while k <= last
        invariant
            last == hay.len() - needle.len(),
            needle.len() <= hay.len(),
            k <= last + 1,
            forall|m: int| 0 <= m < k ==> !occurs_at(hay@, needle@, m),
        decreases last + 1 - k,
    {
        let mut j: usize = 0;
        while j < needle.len() && hay[k + j] == needle[j]
            invariant
                last == hay.len() - needle.len(),
                k <= last,
                j <= needle.len(),
                forall|t: int| 0 <= t < j ==> hay@[k + t] == needle@[t],
            decreases needle.len() - j,
        {
            j = j + 1;
        }
        if j == needle.len() {
            proof {
                assert(hay@.subrange(k as int, k + needle.len()) =~= needle@);
                assert(occurs_at(hay@, needle@, k as int));
            }
            return true;
        }
        proof {
            assert(hay@[k + j] != needle@[j as int]);
            assert(!occurs_at(hay@, needle@, k as int)) by {
                if hay@.subrange(k as int, k + needle.len()) == needle@ {
                    assert(hay@.subrange(k as int, k + needle.len())[j as int] == hay@[k + j]);
                }
            }
        }
        k = k + 1;
    }
    proof {
        assert forall|m: int| !#[trigger] occurs_at(hay@, needle@, m) by {
            if 0 <= m < k {
            }
        }
    }
    false
}

/// `a` comes no later than `b` in the order of texts by code point, the order in which
/// strings compare: `a` is a prefix of `b`, or at the first position where they differ
/// `a` has the smaller character.
pub open spec fn text_le(a: Seq<char>, b: Seq<char>) -> bool {
    ||| (a.len() <= b.len() && b.take(a.len() as int) == a)
    ||| exists|k: int|
        0 <= k < a.len() && k < b.len() && #[trigger] a.take(k) == b.take(k) && (a[k] as u32) < (b[k] as u32)
}

/// Two texts whose code points are not in descending lexicographic order are in text order.
pub proof fn lemma_codes_text_le(a: Seq<char>, b: Seq<char>)
    requires
        !lex_lt(char_codes(b), char_codes(a)),
    ensures
        text_le(a, b),
    decreases a.len(),
{
    let ca = char_codes(a);
    let cb = char_codes(b);
    if a.len() == 0 {
        assert(b.take(0) =~= a);
    } else if b.len() == 0 {
        assert(lex_lt(cb, ca));
    } else if a[0] != b[0] {
        assert(ca[0] == (a[0] as u32) as u64 && cb[0] == (b[0] as u32) as u64);
        vstd::utf8::char_u32_cast(a[0], a[0] as u32);
        vstd::utf8::char_u32_cast(b[0], b[0] as u32);
        assert((a[0] as u32) < (b[0] as u32));
        assert(a.take(0) =~= b.take(0));
    } else {
        assert(ca.drop_first() =~= char_codes(a.drop_first()));
        assert(cb.drop_first() =~= char_codes(b.drop_first()));
        lemma_codes_text_le(a.drop_first(), b.drop_first());
        let a1 = a.drop_first();
        let b1 = b.drop_first();
        if a1.len() <= b1.len() && b1.take(a1.len() as int) == a1 {
            assert(b.take(a.len() as int) =~= seq![b[0]] + b1.take(a1.len() as int));
            assert(a =~= seq![a[0]] + a1);
        } else {
            let k = choose|k: int|
                0 <= k < a1.len() && k < b1.len() && #[trigger] a1.take(k) == b1.take(k) && (a1[k] as u32) < (b1[k] as u32);
            assert(a.take(k + 1) =~= seq![a[0]] + a1.take(k));
            assert(b.take(k + 1) =~= seq![b[0]] + b1.take(k));
            assert(a.take(k + 1) == b.take(k + 1));
        }
    }
}

} // verus!
