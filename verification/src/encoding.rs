//! Detection of the input's text encoding and transcoding to UTF-8.
use vstd::prelude::*;
use vstd::utf8::*;

use crate::text::push_char;

verus! {

#[verifier::external_type_specification]
#[verifier::external_body]
pub struct ExEncoding(encoding_rs::Encoding);

/// Name of the encoding that `chardetng` guesses for the whole of `bytes` (UTF-8 allowed,
/// no top-level domain hint).
pub uninterp spec fn guessed_encoding(bytes: Seq<u8>) -> Seq<char>;

/// What `encoding_rs` produces when it decodes `bytes` with the encoding named
/// `encoding`: the UTF-8 bytes of the text and whether malformed input was replaced.
pub uninterp spec fn decoding(encoding: Seq<char>, bytes: Seq<u8>) -> (Seq<u8>, bool);

/// An encoding of `encoding_rs`, together with its name.
pub struct DetectedEncoding {
    encoding: &'static encoding_rs::Encoding,
    name: Ghost<Seq<char>>,
}

impl DetectedEncoding {
    /// The name of the encoding.
    pub closed spec fn name(&self) -> Seq<char> {
        self.name@
    }
}

/// Calls `chardetng::EncodingDetector::new`, then `feed(bytes, true)` and
/// `guess(None, true)`. Claims: the encoding returned is the one named
/// `guessed_encoding(bytes)`.
#[verifier::external_body]
fn guess_encoding(bytes: &[u8]) -> (res: DetectedEncoding)
    ensures
        res.name() == guessed_encoding(bytes@),
{
    let mut detector = chardetng::EncodingDetector::new();
    detector.feed(bytes, true);
    let encoding = detector.guess(None, true);
    DetectedEncoding { encoding, name: Ghost(guessed_encoding(bytes@)) }
}

/// Calls `encoding_rs::Encoding::name`. Claims: the name is the one the encoding
/// carries.
#[verifier::external_body]
fn encoding_name(e: &DetectedEncoding) -> (res: &'static str)
    ensures
        res@ == e.name(),
{
    e.encoding.name()
}

/// Calls `encoding_rs::Encoding::decode` and takes the UTF-8 bytes of the text it
/// returns. Claims: the result is `decoding(name, bytes)`, and the bytes are valid UTF-8
/// (they are those of a `str`).
#[verifier::external_body]
fn decode_with(e: &DetectedEncoding, bytes: &[u8]) -> (res: (Vec<u8>, bool))
    ensures
        (res.0@, res.1) == decoding(e.name(), bytes@),
        valid_utf8(res.0@),
{
    let (text, _, had_errors) = e.encoding.decode(bytes);
    (text.into_owned().into_bytes(), had_errors)
}

/// Length of the UTF-8 encoding of a scalar that starts at `bytes[i]`, or `None` when
/// the bytes from `i` on do not start with one.
fn first_scalar_len(bytes: &[u8], i: usize) -> (res: Option<usize>)
    requires
        i < bytes.len(),
    ensures
        res is Some <==> valid_first_scalar(bytes@.subrange(i as int, bytes.len() as int)),
        res matches Some(k) ==> k == length_of_first_scalar(bytes@.subrange(i as int, bytes.len() as int)),
{
    let ghost s = bytes@.subrange(i as int, bytes.len() as int);
    let n = bytes.len() - i;
    let b0 = bytes[i];
    if b0 <= 0x7f {
        return Some(1);
    }
    if 0xc0 <= b0 && b0 <= 0xdf {
        if n < 2 {
            return None;
        }
        let b1 = bytes[i + 1];
        if !(0x80 <= b1 && b1 <= 0xbf) {
            return None;
        }
        let cp: u32 = (((b0 & 0x1F) as u32) << 6) | ((b1 & 0x3f) as u32);
        proof {
            assert(s[0] == b0 && s[1] == b1);
            assert(cp == decode_first_codepoint(s));
            assert(cp <= 0x7ff) by (bit_vector)
                requires
                    cp == (((b0 & 0x1F) as u32) << 6) | ((b1 & 0x3f) as u32),
            ;
        }
        if 0x80 <= cp {
            return Some(2);
        }
        return None;
    }
    if 0xe0 <= b0 && b0 <= 0xef {
        if n < 3 {
            return None;
        }
        let b1 = bytes[i + 1];
        let b2 = bytes[i + 2];
        if !(0x80 <= b1 && b1 <= 0xbf) || !(0x80 <= b2 && b2 <= 0xbf) {
            return None;
        }
        let cp: u32 = (((b0 & 0x0F) as u32) << 12) | (((b1 & 0x3f) as u32) << 6) | ((b2 & 0x3f) as u32);
        proof {
            assert(s[0] == b0 && s[1] == b1 && s[2] == b2);
            assert(cp == decode_first_codepoint(s));
        }
        if 0x800 <= cp && !(0xD800 <= cp && cp <= 0xDFFF) {
            return Some(3);
        }
        return None;
    }
    if 0xf0 <= b0 && b0 <= 0xf7 {
        if n < 4 {
            return None;
        }
        let b1 = bytes[i + 1];
        let b2 = bytes[i + 2];
        let b3 = bytes[i + 3];
        if !(0x80 <= b1 && b1 <= 0xbf) || !(0x80 <= b2 && b2 <= 0xbf) || !(0x80 <= b3 && b3 <= 0xbf) {
            return None;
        }
        let cp: u32 = (((b0 & 0x07) as u32) << 18) | (((b1 & 0x3f) as u32) << 12) | (((b2 & 0x3f) as u32) << 6)
            | ((b3 & 0x3f) as u32);
        proof {
            assert(s[0] == b0 && s[1] == b1 && s[2] == b2 && s[3] == b3);
            assert(cp == decode_first_codepoint(s));
        }
        if 0x10000 <= cp && cp <= 0x10ffff {
            return Some(4);
        }
        return None;
    }
    None
}

/// Whether the bytes are valid UTF-8.
pub fn is_valid_utf8(bytes: &[u8]) -> (res: bool)
    ensures
        res == valid_utf8(bytes@),
{
    let mut i: usize = 0;
    proof {
        assert(bytes@.subrange(0, 0) =~= Seq::<u8>::empty());
    }
    while i < bytes.len()
        invariant
            i <= bytes.len(),
            partial_valid_utf8(bytes@, i as int),
        decreases bytes.len() - i,
    {
        match first_scalar_len(bytes, i) {
            Some(k) => {
                proof {
                    partial_valid_utf8_extend(bytes@, i as int);
                }
                i = i + k;
            },
            None => {
                proof {
                    partial_valid_partial_invalid_utf8(bytes@, i as int);
                }
                return false;
            },
        }
    }
    proof {
        assert(bytes@.subrange(0, bytes.len() as int) =~= bytes@);
    }
    true
}

/// What decoding a non-UTF-8 input gives: the transcoded bytes when the guessed encoding
/// decodes it without replacement, otherwise an error naming that encoding.
pub open spec fn transcode_result(bytes: Seq<u8>) -> Result<Seq<u8>, Seq<char>> {
    let name = guessed_encoding(bytes);
    if decoding(name, bytes).1 {
        Err(
            "failed to decode file: detected encoding "@ + name
                + " produced invalid characters"@,
        )
    } else {
        Ok(decoding(name, bytes).0)
    }
}

/// Detect the encoding of `bytes` and transcode them to UTF-8. `None` when they already
/// are valid UTF-8; otherwise the bytes of the text in the guessed encoding, or an error
/// message when that encoding finds malformed input.
pub fn decode_to_utf8(bytes: &[u8]) -> (res: Option<Result<Vec<u8>, String>>)
    ensures
        res is None <==> valid_utf8(bytes@),
        res matches Some(Ok(v)) ==> transcode_result(bytes@) == Ok::<Seq<u8>, Seq<char>>(v@),
        res matches Some(Err(m)) ==> transcode_result(bytes@) == Err::<Seq<u8>, Seq<char>>(m@),
        res matches Some(Ok(v)) ==> valid_utf8(v@),
{
    if is_valid_utf8(bytes) {
        return None;
    }
    let encoding = guess_encoding(bytes);
    let (decoded, had_errors) = decode_with(&encoding, bytes);
    if had_errors {
        let mut msg = String::new();
        let name = encoding_name(&encoding);
        msg.append("failed to decode file: detected encoding ");
        msg.append(name);
        msg.append(" produced invalid characters");
        return Some(Err(msg));
    }
    Some(Ok(decoded))
}

} // verus!
