//! Decoding the bytes of a source file into text, by a named encoding or by
//! detection.

use vstd::prelude::*;
use crate::text::{ascii_lower, ascii_lower_chars, chars_of, string_of, str_eq};

verus! {

broadcast use vstd::string::group_string_axioms;

/// The encodings a source file can be read in by name.
#[derive(Debug, Clone, Copy, PartialEq, Eq, Structural)]
pub enum Charset {
    Utf8,
    Gbk,
    Gb18030,
    ShiftJis,
    Windows1252,
    Big5,
    EucKr,
}

/// What `encoding_rs` decoding of `bytes` in `charset` gives: the text and
/// whether malformed sequences were replaced.
pub uninterp spec fn charset_decode(charset: Charset, bytes: Seq<u8>) -> (Seq<char>, bool);

/// What `encoding_rs` decoding of `bytes` in the encoding labelled `label`
/// gives, or `None` for an unknown label.
pub uninterp spec fn label_decode(label: Seq<char>, bytes: Seq<u8>) -> Option<(Seq<char>, bool)>;

/// The text of `bytes` where they are valid UTF-8.
pub uninterp spec fn utf8_text(bytes: Seq<u8>) -> Option<Seq<char>>;

/// The text of `bytes` read as UTF-8, malformed sequences replaced.
pub uninterp spec fn lossy_text(bytes: Seq<u8>) -> Seq<char>;

/// Decodes `bytes` in one of the fixed encodings.
///
/// Trusted: `encoding_rs::Encoding::decode` on the encoding's static (which
/// also honours a byte-order mark). The result is named by
/// [`charset_decode`]: a function of the encoding and the bytes.
#[verifier::external_body]
fn decode_as(charset: Charset, bytes: &[u8]) -> (r: (String, bool))
    ensures
        (r.0@, r.1) == charset_decode(charset, bytes@),
{
    let e = match charset {
        Charset::Utf8 => encoding_rs::UTF_8,
        Charset::Gbk => encoding_rs::GBK,
        Charset::Gb18030 => encoding_rs::GB18030,
        Charset::ShiftJis => encoding_rs::SHIFT_JIS,
        Charset::Windows1252 => encoding_rs::WINDOWS_1252,
        Charset::Big5 => encoding_rs::BIG5,
        Charset::EucKr => encoding_rs::EUC_KR,
    };
    let (text, _, had_errors) = e.decode(bytes);
    (text.into_owned(), had_errors)
}

/// Decodes `bytes` in the encoding a WHATWG label names.
///
/// Trusted: `encoding_rs::Encoding::for_label`, then `Encoding::decode` on the
/// encoding it finds. The result is named by [`label_decode`]; `None` where
/// the label names no encoding.
#[verifier::external_body]
fn decode_labelled(label: &str, bytes: &[u8]) -> (r: Option<(String, bool)>)
    ensures
        match (r, label_decode(label@, bytes@)) {
            (Some(a), Some(b)) => a.0@ == b.0 && a.1 == b.1,
            (None, None) => true,
            _ => false,
        },
{
    encoding_rs::Encoding::for_label(label.as_bytes()).map(
        |e| {
            let (text, _, had_errors) = e.decode(bytes);
            (text.into_owned(), had_errors)
        },
    )
}

/// The text of valid UTF-8.
///
/// Trusted: `std::str::from_utf8`, which succeeds exactly on valid UTF-8;
/// the result is named by [`utf8_text`].
#[verifier::external_body]
fn utf8_exact(bytes: &[u8]) -> (r: Option<String>)
    ensures
        match (r, utf8_text(bytes@)) {
            (Some(a), Some(b)) => a@ == b,
            (None, None) => true,
            _ => false,
        },
{
    std::str::from_utf8(bytes).ok().map(|s| s.to_string())
}

/// UTF-8 text with malformed sequences replaced.
///
/// Trusted: `String::from_utf8_lossy`; the result is named by
/// [`lossy_text`].
#[verifier::external_body]
fn utf8_lossy(bytes: &[u8]) -> (r: String)
    ensures
        r@ == lossy_text(bytes@),
{
    String::from_utf8_lossy(bytes).into_owned()
}

/// The fixed encoding a lower-case name selects, if any.
pub open spec fn named_charset(name: Seq<char>) -> Option<Charset> {
    if name == "utf-8"@ || name == "utf8"@ {
        Some(Charset::Utf8)
    } else if name == "gbk"@ || name == "gb2312"@ {
        Some(Charset::Gbk)
    } else if name == "gb18030"@ {
        Some(Charset::Gb18030)
    } else if name == "shift-jis"@ || name == "shift_jis"@ || name == "sjis"@ {
        Some(Charset::ShiftJis)
    } else if name == "latin1"@ || name == "iso-8859-1"@ || name == "iso8859-1"@ {
        Some(Charset::Windows1252)
    } else if name == "big5"@ {
        Some(Charset::Big5)
    } else if name == "euc-kr"@ || name == "euc_kr"@ || name == "korean"@ {
        Some(Charset::EucKr)
    } else {
        None
    }
}

/// Whether `s` holds the replacement character.
pub open spec fn has_replacement(s: Seq<char>) -> bool {
    exists|i: int| 0 <= i < s.len() && s[i] == '\u{FFFD}'
}

/// Text detected for `bytes`: a UTF-8 byte-order mark selects UTF-8; valid
/// UTF-8 is taken as it is; otherwise GBK, and where GBK finds malformed
/// sequences Shift-JIS, and where that gives nothing or replacement
/// characters Windows-1252 (which never fails).
pub open spec fn detected_text(bytes: Seq<u8>) -> Seq<char> {
    if bytes.len() >= 3 && bytes[0] == 0xEF && bytes[1] == 0xBB && bytes[2] == 0xBF {
        lossy_text(bytes.skip(3))
    } else {
        match utf8_text(bytes) {
            Some(t) => t,
            None => {
                let g = charset_decode(Charset::Gbk, bytes);
                if g.1 {
                    let sj = charset_decode(Charset::ShiftJis, bytes).0;
                    if sj.len() == 0 || has_replacement(sj) {
                        charset_decode(Charset::Windows1252, bytes).0
                    } else {
                        sj
                    }
                } else {
                    g.0
                }
            },
        }
    }
}

/// The text of a source file's bytes in the encoding named `encoding`
/// (ASCII case ignored): `auto` detects it, a known name selects its
/// encoding, any other WHATWG label its encoding, and an unknown label UTF-8.
pub open spec fn source_text(bytes: Seq<u8>, encoding: Seq<char>) -> Seq<char> {
    let enc = ascii_lower(encoding);
    if enc == "auto"@ {
        detected_text(bytes)
    } else {
        match named_charset(enc) {
            Some(c) => charset_decode(c, bytes).0,
            None => match label_decode(enc, bytes) {
                Some(d) => d.0,
                None => charset_decode(Charset::Utf8, bytes).0,
            },
        }
    }
}

/// Whether `a` holds the characters of `lit`.
fn is_name(a: &String, lit: &str) -> (r: bool)
    ensures
        r == (a@ == lit@),
{
    str_eq(a.as_str(), lit)
}

/// Executable [`named_charset`].
fn charset_named(n: &String) -> (r: Option<Charset>)
    ensures
        r == named_charset(n@),
{
    if is_name(n, "utf-8") || is_name(n, "utf8") {
        Some(Charset::Utf8)
    } else if is_name(n, "gbk") || is_name(n, "gb2312") {
        Some(Charset::Gbk)
    } else if is_name(n, "gb18030") {
        Some(Charset::Gb18030)
    } else if is_name(n, "shift-jis") || is_name(n, "shift_jis") || is_name(n, "sjis") {
        Some(Charset::ShiftJis)
    } else if is_name(n, "latin1") || is_name(n, "iso-8859-1") || is_name(n, "iso8859-1") {
        Some(Charset::Windows1252)
    } else if is_name(n, "big5") {
        Some(Charset::Big5)
    } else if is_name(n, "euc-kr") || is_name(n, "euc_kr") || is_name(n, "korean") {
        Some(Charset::EucKr)
    } else {
        None
    }
}

/// Whether `s` holds the replacement character.
fn holds_replacement(s: &str) -> (r: bool)
    ensures
        r == has_replacement(s@),
{
    let cs = chars_of(s);
    let mut i: usize = 0;
    while i < cs.len()
        invariant
            i <= cs.len(),
            cs@ == s@,
            forall|j: int| 0 <= j < i ==> cs@[j] != '\u{FFFD}',
        decreases cs.len() - i,
    {
        if cs[i] == '\u{FFFD}' {
            return true;
        }
        i += 1;
    }
    false
}

/// Decodes the bytes of a source file into text (never fails; see
/// [`source_text`]).
pub fn decode_source_bytes(bytes: &[u8], encoding: &str) -> (r: String)
    ensures
        r@ == source_text(bytes@, encoding@),
{
    let ec = chars_of(encoding);
    let lc = ascii_lower_chars(ec.as_slice());
    let enc = string_of(lc.as_slice());
    if is_name(&enc, "auto") {
        if bytes.len() >= 3 && bytes[0] == 0xEF && bytes[1] == 0xBB && bytes[2] == 0xBF {
            let rest = slice_from(bytes, 3);
            return utf8_lossy(rest);
        }
        match utf8_exact(bytes) {
            Some(t) => return t,
            None => {},
        }
        let (g, g_err) = decode_as(Charset::Gbk, bytes);
        if g_err {
            let (sj, _) = decode_as(Charset::ShiftJis, bytes);
            let sjc = chars_of(sj.as_str());
            if sjc.len() == 0 || holds_replacement(sj.as_str()) {
                let (w, _) = decode_as(Charset::Windows1252, bytes);
                return w;
            }
            return sj;
        }
        return g;
    }
    match charset_named(&enc) {
        Some(c) => decode_as(c, bytes).0,
        None => match decode_labelled(enc.as_str(), bytes) {
            Some(d) => d.0,
            None => decode_as(Charset::Utf8, bytes).0,
        },
    }
}

/// The bytes of `b` from index `k` on.
fn slice_from(b: &[u8], k: usize) -> (r: &[u8])
    requires
        k <= b.len(),
    ensures
        r@ == b@.skip(k as int),
{
    let (_, r) = b.split_at(k);
    r
}

} // verus!
