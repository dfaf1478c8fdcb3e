use vstd::prelude::*;

use base64_stream::{FromBase64Reader, ToBase64Reader};
use std::io::Read;

verus! {

/// The character of the standard base64 alphabet for a 6-bit value.
pub open spec fn base64_digit(v: int) -> char {
    if v < 26 {
        (65 + v) as char
    } else if v < 52 {
        (97 + v - 26) as char
    } else if v < 62 {
        (48 + v - 52) as char
    } else if v == 62 {
        '+'
    } else {
        '/'
    }
}

/// The standard base64 text (with padding) of some bytes: each group of
/// three bytes becomes four characters, a last group of one or two bytes
/// is padded with `=`.
pub open spec fn base64_text(data: Seq<u8>) -> Seq<char>
    decreases data.len(),
{
    if data.len() == 0 {
        seq![]
    } else if data.len() == 1 {
        seq![base64_digit((data[0] as int) / 4), base64_digit(((data[0] as int) % 4) * 16), '=', '=']
    } else if data.len() == 2 {
        seq![
            base64_digit((data[0] as int) / 4),
            base64_digit(((data[0] as int) % 4) * 16 + (data[1] as int) / 16),
            base64_digit(((data[1] as int) % 16) * 4),
            '=',
        ]
    } else {
        seq![
            base64_digit((data[0] as int) / 4),
            base64_digit(((data[0] as int) % 4) * 16 + (data[1] as int) / 16),
            base64_digit(((data[1] as int) % 16) * 4 + (data[2] as int) / 64),
            base64_digit((data[2] as int) % 64),
        ] + base64_text(data.subrange(3, data.len() as int))
    }
}

/// What reading base64 text back gives: the bytes, or the message of the
/// failure where the text is no valid base64.
pub uninterp spec fn base64_decoding(text: Seq<char>) -> Result<Seq<u8>, Seq<char>>;

/// Reads the bytes through `base64_stream::ToBase64Reader`. The contract
/// claims that the read succeeds (the source is a byte slice, which never
/// fails, and the encoder writes only characters of the base64 alphabet)
/// and that the text is the standard base64 text of the bytes.
#[verifier::external_body]
fn base64_encode(data: &[u8]) -> (r: Result<String, String>)
    ensures
        r is Ok,
        r is Ok ==> r->Ok_0@ == base64_text(data@),
{
    let mut text = String::with_capacity(data.len());
    match ToBase64Reader::new(data).read_to_string(&mut text) {
        Ok(_) => Ok(text),
        Err(error) => Err(error.to_string()),
    }
}

/// Reads the text through `base64_stream::FromBase64Reader`. The contract
/// claims that the outcome is a function of the text alone, that the text
/// is read exactly when it is the standard base64 text of some bytes (the
/// standard engine requires canonical padding and no trailing bits), and
/// that such text reads back as those bytes.
#[verifier::external_body]
fn base64_decode(text: &str) -> (r: Result<Vec<u8>, String>)
    ensures
        r is Ok <==> base64_decoding(text@) is Ok,
        r is Ok ==> r->Ok_0@ == base64_decoding(text@)->Ok_0,
        r is Err ==> r->Err_0@ == base64_decoding(text@)->Err_0,
        forall|data: Seq<u8>| #[trigger] base64_text(data) == text@ ==> r is Ok && r->Ok_0@ == data,
        (exists|data: Seq<u8>| #[trigger] base64_text(data) == text@) <==> r is Ok,
{
    let mut data = Vec::with_capacity(text.len());
    match FromBase64Reader::new(text.as_bytes()).read_to_end(&mut data) {
        Ok(_) => Ok(data),
        Err(error) => Err(error.to_string()),
    }
}

/// The text under which a product's image travels in JSON.
pub fn encode_image(image: &Vec<u8>) -> (r: Result<String, String>)
    ensures
        r matches Ok(text) && text@ == base64_text(image@),
{
    base64_encode(image.as_slice())
}

/// The image that the JSON text of a product carries; an image survives
/// being written with `encode_image` and read back here, and text that is
/// no standard base64 text is refused.
pub fn decode_image(text: &str) -> (r: Result<Vec<u8>, String>)
    ensures
        match base64_decoding(text@) {
            Ok(data) => r matches Ok(v) && v@ == data,
            Err(message) => r matches Err(m) && m@ == message,
        },
        forall|data: Seq<u8>| #[trigger] base64_text(data) == text@ ==> (r matches Ok(v) && v@ == data),
        (exists|data: Seq<u8>| #[trigger] base64_text(data) == text@) <==> r is Ok,
{
    base64_decode(text)
}

} // verus!
