//! PNG data URLs: `data:image/png;base64,` followed by the standard base64
//! encoding (with padding) of the file's bytes.

use vstd::prelude::*;
use base64::Engine as _;
use crate::errors::AppError;
use crate::text::{chars_of, concat_chars, copy_range, string_from_chars};

verus! {

/// The standard base64 alphabet: `A`–`Z`, `a`–`z`, `0`–`9`, `+`, `/`.
pub open spec fn b64_char(v: int) -> char {
    if 0 <= v < 26 {
        ((65 + v) as u8) as char
    } else if 26 <= v < 52 {
        ((97 + v - 26) as u8) as char
    } else if 52 <= v < 62 {
        ((48 + v - 52) as u8) as char
    } else if v == 62 {
        '+'
    } else {
        '/'
    }
}

/// The standard base64 encoding with `=` padding: each three bytes become
/// four characters of six bits each; a last one or two bytes become four
/// characters ending in `==` or `=`.
pub open spec fn base64_spec(b: Seq<u8>) -> Seq<char>
    decreases b.len(),
{
    let x0 = b[0] as int;
    let x1 = b[1] as int;
    let x2 = b[2] as int;
    if b.len() == 0 {
        Seq::empty()
    } else if b.len() == 1 {
        seq![b64_char(x0 / 4), b64_char((x0 % 4) * 16), '=', '=']
    } else if b.len() == 2 {
        seq![b64_char(x0 / 4), b64_char((x0 % 4) * 16 + x1 / 16), b64_char((x1 % 16) * 4), '=']
    } else {
        seq![
            b64_char(x0 / 4),
            b64_char((x0 % 4) * 16 + x1 / 16),
            b64_char((x1 % 16) * 4 + x2 / 64),
            b64_char(x2 % 64),
        ] + base64_spec(b.subrange(3, b.len() as int))
    }
}

/// `base64::engine::general_purpose::STANDARD.encode`: the standard
/// encoding with padding, as [`base64_spec`] states it. The crate panics
/// only when the encoded length overflows `usize`, which the bound rules out.
#[verifier::external_body]
fn base64_encode(bytes: &[u8]) -> (r: String)
    requires
        bytes@.len() <= usize::MAX / 2,
    ensures
        r@ == base64_spec(bytes@),
{
    base64::engine::general_purpose::STANDARD.encode(bytes)
}

/// `base64::engine::general_purpose::STANDARD.decode`: with canonical
/// padding required and no trailing bits allowed it accepts exactly the
/// texts that are some encoding, and gives the bytes encoded; the error's
/// text comes back as it is.
#[verifier::external_body]
fn base64_decode(text: &str) -> (r: Result<Vec<u8>, String>)
    ensures
        match r {
            Ok(b) => base64_spec(b@) == text@,
            Err(_) => forall|b: Seq<u8>| base64_spec(b) != text@,
        },
{
    match base64::engine::general_purpose::STANDARD.decode(text) {
        Ok(bytes) => Ok(bytes),
        Err(err) => Err(err.to_string()),
    }
}

/// The data URL of a PNG file's bytes.
pub open spec fn png_data_url_spec(bytes: Seq<u8>) -> Seq<char> {
    "data:image/png;base64,"@ + base64_spec(bytes)
}

fn png_bytes_data_url(png_bytes: &[u8]) -> (r: String)
    requires
        png_bytes@.len() <= usize::MAX / 2,
    ensures
        r@ == png_data_url_spec(png_bytes@),
{
    let a = chars_of("data:image/png;base64,");
    let e = base64_encode(png_bytes);
    let b = chars_of(e.as_str());
    let c = concat_chars(a.as_slice(), b.as_slice());
    string_from_chars(c.as_slice())
}

/// The data URL of a PNG file, from the file's bytes.
pub fn png_path_to_data_url(png_bytes: &[u8]) -> (r: String)
    requires
        png_bytes@.len() <= usize::MAX / 2,
    ensures
        r@ == png_data_url_spec(png_bytes@),
{
    png_bytes_data_url(png_bytes)
}

/// The data URL the icon editor previews a picked PNG with, from its bytes.
pub fn icon_editor_png_data_url(png_bytes: &[u8]) -> (r: String)
    requires
        png_bytes@.len() <= usize::MAX / 2,
    ensures
        r@ == png_data_url_spec(png_bytes@),
{
    png_bytes_data_url(png_bytes)
}

/// Index of the first `,` in a text, or its length.
pub open spec fn first_comma(s: Seq<char>) -> int
    decreases s.len(),
{
    if s.len() == 0 {
        0
    } else if s[0] == ',' {
        0
    } else {
        1 + first_comma(s.drop_first())
    }
}

/// What follows the first `,` of a data URL, when it has one.
pub open spec fn payload_spec(url: Seq<char>) -> Option<Seq<char>> {
    if first_comma(url) < url.len() {
        Some(url.subrange(first_comma(url) + 1, url.len() as int))
    } else {
        None
    }
}

proof fn lemma_first_comma_bound(s: Seq<char>)
    ensures
        0 <= first_comma(s) <= s.len(),
        first_comma(s) < s.len() ==> s[first_comma(s)] == ',',
        forall|i: int| 0 <= i < first_comma(s) ==> s[i] != ',',
    decreases s.len(),
{
    if s.len() > 0 && s[0] != ',' {
        lemma_first_comma_bound(s.drop_first());
        assert forall|i: int| 0 <= i < first_comma(s) implies s[i] != ',' by {
            if i > 0 {
                assert(s[i] == s.drop_first()[i - 1]);
            }
        }
    }
}

fn first_comma_exec(v: &[char]) -> (r: usize)
    ensures
        r == first_comma(v@),
{
    proof {
        lemma_first_comma_bound(v@);
    }
    let mut i: usize = 0;
    while i < v.len() && v[i] != ','
        invariant
            i <= v.len(),
            0 <= first_comma(v@) <= v@.len(),
            forall|k: int| 0 <= k < first_comma(v@) ==> v@[k] != ',',
            first_comma(v@) < v@.len() ==> v@[first_comma(v@)] == ',',
            forall|k: int| 0 <= k < i ==> v@[k] != ',',
        decreases v.len() - i,
    {
        i = i + 1;
    }
    proof {
        if i < first_comma(v@) {
            assert(v@[i as int] != ',');
        }
        if first_comma(v@) < i {
            assert(v@[first_comma(v@)] != ',');
        }
    }
    i
}

/// The bytes a PNG data URL carries: the base64 text after its first `,`,
/// decoded. A URL without `,` and a text that is no base64 encoding are
/// parse errors.
pub fn png_data_url_payload(png_data_url: &str) -> (r: Result<Vec<u8>, AppError>)
    ensures
        match payload_spec(png_data_url@) {
            None => r matches Err(AppError::ParseError(m)) && m@ == "invalid png data url"@,
            Some(p) => match r {
                Ok(b) => base64_spec(b@) == p,
                Err(e) => (e matches AppError::ParseError(m) && m@.len() >= 27
                    && m@.subrange(0, 27) == "failed to decode png data: "@)
                    && forall|b: Seq<u8>| base64_spec(b) != p,
            },
        },
{
    let v = chars_of(png_data_url);
    let comma = first_comma_exec(v.as_slice());
    if comma >= v.len() {
        return Err(AppError::ParseError("invalid png data url".to_string()));
    }
    let tail = copy_range(v.as_slice(), comma + 1, v.len());
    let tail_text = string_from_chars(tail.as_slice());
    match base64_decode(tail_text.as_str()) {
        Ok(bytes) => Ok(bytes),
        Err(msg) => {
            let a = chars_of("failed to decode png data: ");
            let b = chars_of(msg.as_str());
            let c = concat_chars(a.as_slice(), b.as_slice());
            proof {
                reveal_strlit("failed to decode png data: ");
                assert(c@.subrange(0, 27) =~= "failed to decode png data: "@);
            }
            Err(AppError::ParseError(string_from_chars(c.as_slice())))
        },
    }
}

} // verus!
