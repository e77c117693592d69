use vstd::prelude::*;
use vstd::string::*;
use vstd::utf8::*;

use crate::error::ParseError;
use crate::parse::{message_parse_build, parse_line};
use crate::request::HostRequest;
use crate::text::{contains, line_len, line_text, slice_contains};

verus! {

/// What one line of operator input asks for.
#[derive(Clone, Copy, Debug)]
pub enum LineOutcome {
    /// The line names the menu: show the banner, no request.
    Menu,
    /// The line is a command, parsed into a complete draft request.
    Request(HostRequest),
}

/// The word that, anywhere in a line, asks for the menu.
pub open spec fn menu_word() -> Seq<char> {
    seq!['m', 'e', 'n', 'u']
}

/// `r` is what the line of text `s` must give: the menu when "menu" occurs
/// anywhere in it, else the command spelled before its first NUL character.
pub open spec fn outcome_as(s: Seq<char>, r: Result<LineOutcome, ParseError>) -> bool {
    if contains(s, menu_word()) {
        r matches Ok(LineOutcome::Menu)
    } else {
        match parse_line(line_text(s)) {
            Ok((i, o, values)) => r matches Ok(LineOutcome::Request(req)) && req.describes(
                i,
                o,
                values,
            ) && req.complete(),
            Err(e) => r == Err::<LineOutcome, ParseError>(e),
        }
    }
}

pub open spec fn is_ascii_bytes(b: Seq<u8>) -> bool {
    forall|k: int| 0 <= k < b.len() ==> b[k] < 128
}

/// Each byte read as the character of that code.
pub open spec fn ascii_chars(b: Seq<u8>) -> Seq<char> {
    b.map_values(|x: u8| x as char)
}

/// Relies on core::str::from_utf8: text exactly when the bytes are valid
/// UTF-8, and then a `str` made of those very bytes.
#[verifier::external_body]
fn text_of_bytes(b: &[u8]) -> (r: Option<&str>)
    ensures
        r is Some <==> valid_utf8(b@),
        r matches Some(t) ==> t.spec_bytes() == b@,
{
    core::str::from_utf8(b).ok()
}

/// Bytes below 128 are valid UTF-8, each the character of its code.
pub proof fn lemma_ascii_decodes(b: Seq<u8>)
    requires
        is_ascii_bytes(b),
    ensures
        valid_utf8(b),
        decode_utf8(b) == ascii_chars(b),
    decreases b.len(),
{
    if b.len() > 0 {
        let x = b[0];
        assert(x & 0x7f == x) by (bit_vector)
            requires
                x < 128,
        ;
        assert(valid_first_scalar(b));
        assert(pop_first_scalar(b) =~= b.drop_first());
        lemma_ascii_decodes(b.drop_first());
        assert(ascii_chars(b) =~= seq![x as char] + ascii_chars(b.drop_first()));
    } else {
        assert(ascii_chars(b) =~= Seq::<char>::empty());
    }
}

/// Handles one line of text: the menu alias when it holds "menu" anywhere,
/// else the command spelled before its first NUL character.
pub fn classify_line(text: &str) -> (r: Result<LineOutcome, ParseError>)
    ensures
        outcome_as(text@, r),
{
    proof {
        reveal_strlit("menu");
        assert("menu"@ =~= menu_word());
    }
    if slice_contains(text, "menu") {
        Ok(LineOutcome::Menu)
    } else {
        let n = line_len(text);
        let line = text.substring_char(0, n);
        match message_parse_build(line) {
            Ok(req) => Ok(LineOutcome::Request(req)),
            Err(e) => Err(e),
        }
    }
}

/// Handles one zero-padded input buffer: the whole buffer is decoded as
/// UTF-8 and then handled as `classify_line` does.
pub fn match_usb_serial_buf(buf: &[u8; 64]) -> (r: Result<LineOutcome, ParseError>)
    ensures
        !valid_utf8(buf@) ==> r == Err::<LineOutcome, ParseError>(ParseError::MalformedText),
        valid_utf8(buf@) ==> outcome_as(decode_utf8(buf@), r),
        is_ascii_bytes(buf@) ==> outcome_as(ascii_chars(buf@), r),
{
    let bytes: &[u8] = buf.as_slice();
    proof {
        if is_ascii_bytes(buf@) {
            lemma_ascii_decodes(buf@);
        }
    }
    match text_of_bytes(bytes) {
        None => Err(ParseError::MalformedText),
        Some(t) => {
            proof {
                encode_utf8_decode_utf8(t@);
            }
            classify_line(t)
        },
    }
}

} // verus!
