//! Charset detection for skin files: UTF-16 and UTF-8 byte-order marks,
//! UTF-8, and the Windows-1252 fallback.
use vstd::prelude::*;
use vstd::slice::slice_subrange;
use vstd::utf8::{decode_utf8, valid_utf8};

verus! {

/// Why raw skin bytes could not be decoded.
#[derive(Debug, Clone, PartialEq, Eq)]
pub enum EncodingError {
    DecodingFailed,
}

/// The charsets the fallback chain decodes with.
pub enum Charset {
    Utf16Le,
    Utf16Be,
    Windows1252,
}

/// The WHATWG label of a charset.
pub open spec fn charset_label(c: Charset) -> Seq<char> {
    match c {
        Charset::Utf16Le => "UTF-16LE"@,
        Charset::Utf16Be => "UTF-16BE"@,
        Charset::Windows1252 => "windows-1252"@,
    }
}

/// What `encoding_rs::Encoding::decode` returns for the encoding with the
/// given label: the decoded text and whether malformed sequences were
/// replaced.
pub uninterp spec fn whatwg_decode(label: Seq<char>, bytes: Seq<u8>) -> (Seq<char>, bool);

/// Calls `encoding_rs::Encoding::decode` on the chosen encoding. Its result
/// depends on the encoding and the bytes alone, and is left as a name: the
/// decoding tables (and the byte-order-mark sniffing `decode` does) are not
/// restated here.
#[verifier::external_body]
fn decode_with(charset: Charset, bytes: &[u8]) -> (r: (String, bool))
    ensures
        (r.0@, r.1) == whatwg_decode(charset_label(charset), bytes@),
{
    let enc = match charset {
        Charset::Utf16Le => encoding_rs::UTF_16LE,
        Charset::Utf16Be => encoding_rs::UTF_16BE,
        Charset::Windows1252 => encoding_rs::WINDOWS_1252,
    };
    let (cow, _, malformed) = enc.decode(bytes);
    (cow.into_owned(), malformed)
}

/// Calls `std::str::from_utf8`: it succeeds exactly on valid UTF-8, and the
/// text is then the characters the bytes encode.
#[verifier::external_body]
fn utf8_text(bytes: &[u8]) -> (r: Option<String>)
    ensures
        r is Some <==> valid_utf8(bytes@),
        r matches Some(s) ==> s@ == decode_utf8(bytes@),
{
    match std::str::from_utf8(bytes) {
        Ok(s) => Some(s.to_string()),
        Err(_) => None,
    }
}

/// `raw` begins with the UTF-16 little-endian byte-order mark.
pub open spec fn bom_utf16le(raw: Seq<u8>) -> bool {
    raw.len() >= 2 && raw[0] == 0xFF && raw[1] == 0xFE
}

/// `raw` begins with the UTF-16 big-endian byte-order mark.
pub open spec fn bom_utf16be(raw: Seq<u8>) -> bool {
    raw.len() >= 2 && raw[0] == 0xFE && raw[1] == 0xFF
}

/// `raw` begins with the UTF-8 byte-order mark.
pub open spec fn bom_utf8(raw: Seq<u8>) -> bool {
    raw.len() >= 3 && raw[0] == 0xEF && raw[1] == 0xBB && raw[2] == 0xBF
}

/// The text `decode_ini_bytes` returns, or `None` when it fails: after a
/// UTF-16 byte-order mark the rest must decode without malformed
/// sequences; otherwise UTF-8 (after an optional mark) when valid, else
/// Windows-1252.
pub open spec fn decoded_text(raw: Seq<u8>) -> Option<Seq<char>> {
    let le = whatwg_decode("UTF-16LE"@, raw.skip(2));
    let be = whatwg_decode("UTF-16BE"@, raw.skip(2));
    let body = if bom_utf8(raw) {
        raw.skip(3)
    } else {
        raw
    };
    if raw.len() == 0 {
        Some(seq![])
    } else if bom_utf16le(raw) {
        if le.1 {
            None
        } else {
            Some(le.0)
        }
    } else if bom_utf16be(raw) {
        if be.1 {
            None
        } else {
            Some(be.0)
        }
    } else if valid_utf8(body) {
        Some(decode_utf8(body))
    } else {
        Some(whatwg_decode("windows-1252"@, body).0)
    }
}

/// Decodes the raw bytes of a skin file, detecting its charset.
pub fn decode_ini_bytes(raw: &[u8]) -> (r: Result<String, EncodingError>)
    ensures
        match r {
            Ok(s) => decoded_text(raw@) == Some(s@),
            Err(e) => decoded_text(raw@) is None && e == EncodingError::DecodingFailed,
        },
{
    if raw.len() == 0 {
        return Ok(String::new());
    }
    if raw.len() >= 2 && raw[0] == 0xFF && raw[1] == 0xFE {
        let rest = slice_subrange(raw, 2, raw.len());
        assert(rest@ =~= raw@.skip(2));
        let (text, malformed) = decode_with(Charset::Utf16Le, rest);
        if malformed {
            return Err(EncodingError::DecodingFailed);
        }
        return Ok(text);
    }
    if raw.len() >= 2 && raw[0] == 0xFE && raw[1] == 0xFF {
        let rest = slice_subrange(raw, 2, raw.len());
        assert(rest@ =~= raw@.skip(2));
        let (text, malformed) = decode_with(Charset::Utf16Be, rest);
        if malformed {
            return Err(EncodingError::DecodingFailed);
        }
        return Ok(text);
    }
    let body = if raw.len() >= 3 && raw[0] == 0xEF && raw[1] == 0xBB && raw[2] == 0xBF {
        let b = slice_subrange(raw, 3, raw.len());
        assert(b@ =~= raw@.skip(3));
        b
    } else {
        raw
    };
    if let Some(text) = utf8_text(body) {
        return Ok(text);
    }
    let (text, _) = decode_with(Charset::Windows1252, body);
    Ok(text)
}

} // verus!
