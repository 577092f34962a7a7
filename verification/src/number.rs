//! Recognition of the texts that `str::parse::<f64>` accepts.
//!
//! The standard library documents the accepted language as the texts that, with their
//! ASCII letters lowercased, match
//!
//! ```text
//! Float  ::= Sign? ( 'inf' | 'infinity' | 'nan' | Number )
//! Number ::= ( Digit+ | Digit+ '.' Digit* | Digit* '.' Digit+ ) Exp?
//! Exp    ::= 'e' Sign? Digit+
//! Sign   ::= [+-]
//! Digit  ::= [0-9]
//! ```
//!
//! Parsing never fails on magnitude (overflow gives an infinity), so a text parses
//! exactly when it is in this language.
use vstd::prelude::*;

use crate::text::{ascii_fold, fold_char};

verus! {

pub open spec fn is_digit(c: char) -> bool {
    '0' <= c && c <= '9'
}

pub open spec fn is_sign(c: char) -> bool {
    c == '+' || c == '-'
}

pub open spec fn ascii_lower_text(s: Seq<char>) -> Seq<char> {
    s.map_values(|c: char| ascii_fold(c))
}

/// End of the run of digits that starts at `i`.
pub open spec fn digits_end(s: Seq<char>, i: int) -> int
    decreases s.len() - i,
{
    if 0 <= i < s.len() && is_digit(s[i]) {
        digits_end(s, i + 1)
    } else {
        i
    }
}

/// `Exp` starting at position `b` and running to the end of `s`.
pub open spec fn is_exponent_at(s: Seq<char>, b: int) -> bool {
    let c = if b + 1 < s.len() && is_sign(s[b + 1]) {
        b + 2
    } else {
        b + 1
    };
    &&& 0 <= b < s.len()
    &&& s[b] == 'e'
    &&& c < s.len()
    &&& digits_end(s, c) == s.len()
}

/// `Number`: integer digits, an optional '.' with fraction digits, at least one digit in
/// all, then an optional exponent.
pub open spec fn is_number_text(s: Seq<char>) -> bool {
    let a = digits_end(s, 0);
    let has_point = a < s.len() && s[a] == '.';
    let b = if has_point {
        digits_end(s, a + 1)
    } else {
        a
    };
    let digit_count = if has_point {
        a + (b - (a + 1))
    } else {
        a
    };
    &&& digit_count > 0
    &&& (b == s.len() || is_exponent_at(s, b))
}

/// The texts that `str::parse::<f64>` accepts (see the module documentation).
pub open spec fn is_float_text(s: Seq<char>) -> bool {
    let body = if s.len() > 0 && is_sign(s[0]) {
        s.drop_first()
    } else {
        s
    };
    let t = ascii_lower_text(body);
    ||| t == seq!['i', 'n', 'f']
    ||| t == seq!['i', 'n', 'f', 'i', 'n', 'i', 't', 'y']
    ||| t == seq!['n', 'a', 'n']
    ||| is_number_text(t)
}

fn digits_end_exec(s: &Vec<char>, i: usize) -> (res: usize)
    requires
        i <= s.len(),
    ensures
        res == digits_end(s@, i as int),
        i <= res <= s.len(),
{
    let mut j = i;
    while j < s.len() && '0' <= s[j] && s[j] <= '9'
        invariant
            i <= j <= s.len(),
            digits_end(s@, i as int) == digits_end(s@, j as int),
        decreases s.len() - j,
    {
        j = j + 1;
    }
    j
}

fn text_eq(a: &Vec<char>, lit: &[char]) -> (res: bool)
    ensures
        res == (a@ == lit@),
{
    if a.len() != lit.len() {
        return false;
    }
    let mut i: usize = 0;
    while i < a.len()
        invariant
            a.len() == lit@.len(),
            i <= a.len(),
            forall|k: int| 0 <= k < i ==> a@[k] == lit@[k],
        decreases a.len() - i,
    {
        if a[i] != lit[i] {
            return false;
        }
        i = i + 1;
    }
    proof {
        assert(a@ =~= lit@);
    }
    true
}

fn is_number_chars(s: &Vec<char>) -> (res: bool)
    ensures
        res == is_number_text(s@),
{
    let a = digits_end_exec(s, 0);
    let has_point = a < s.len() && s[a] == '.';
    let b = if has_point {
        digits_end_exec(s, a + 1)
    } else {
        a
    };
    let digit_count = if has_point {
        a + (b - (a + 1))
    } else {
        a
    };
    if digit_count == 0 {
        return false;
    }
    if b == s.len() {
        return true;
    }
    if s[b] != 'e' {
        return false;
    }
    let c = if b + 1 < s.len() && (s[b + 1] == '+' || s[b + 1] == '-') {
        b + 2
    } else {
        b + 1
    };
    if c >= s.len() {
        return false;
    }
    digits_end_exec(s, c) == s.len()
}

/// Whether `str::parse::<f64>` accepts the text (see the module documentation).
pub fn parses_as_float(s: &str) -> (res: bool)
    ensures
        res == is_float_text(s@),
{
    let mut body: Vec<char> = Vec::new();
    let mut first = true;
    let ghost skip: int = if s@.len() > 0 && is_sign(s@[0]) {
        1
    } else {
        0
    };
    for c in it: s.chars()
        invariant
            it.seq() == s@,
            skip == (if s@.len() > 0 && is_sign(s@[0]) {
                1int
            } else {
                0int
            }),
            first == (it.index() == 0),
            it.index() >= skip ==> body@ == ascii_lower_text(s@.subrange(skip, it.index())),
            it.index() < skip ==> body@.len() == 0,
    {
        let lc = fold_char(c);
        if !(first && (c == '+' || c == '-')) {
            proof {
                assert(s@.subrange(skip, it.index() + 1) == s@.subrange(skip, it.index()).push(c));
                assert(ascii_lower_text(s@.subrange(skip, it.index()).push(c)) =~= ascii_lower_text(
                    s@.subrange(skip, it.index()),
                ).push(lc));
                if it.index() == 0 {
                    assert(s@.subrange(skip, 0) =~= Seq::<char>::empty());
                }
            }
            body.push(lc);
        } else {
            proof {
                assert(s@.subrange(skip, it.index() + 1) =~= Seq::<char>::empty());
            }
        }
        first = false;
    }
    proof {
        if s@.len() > 0 && is_sign(s@[0]) {
            assert(s@.subrange(1, s@.len() as int) =~= s@.drop_first());
        } else {
            assert(s@.subrange(0, s@.len() as int) =~= s@);
        }
    }
    let inf = ['i', 'n', 'f'];
    let infinity = ['i', 'n', 'f', 'i', 'n', 'i', 't', 'y'];
    let nan = ['n', 'a', 'n'];
    proof {
        assert(inf@ =~= seq!['i', 'n', 'f']);
        assert(infinity@ =~= seq!['i', 'n', 'f', 'i', 'n', 'i', 't', 'y']);
        assert(nan@ =~= seq!['n', 'a', 'n']);
    }
    text_eq(&body, inf.as_slice()) || text_eq(&body, infinity.as_slice()) || text_eq(
        &body,
        nan.as_slice(),
    ) || is_number_chars(&body)
}

} // verus!
