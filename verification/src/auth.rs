//! Answers to pages that ask for credentials: whether the user is asked,
//! and the `Authorization` value made of what the user gives.

use vstd::prelude::*;
use vstd::utf8::encode_utf8;
use crate::help::Settings;
use crate::text::{chars_of, starts_with, starts_with_exec};

verus! {

broadcast use vstd::string::group_string_axioms;

/// The base64 digit of `v` (`0 <= v < 64`).
pub open spec fn b64_digit(v: int) -> char {
    if v < 26 {
        (v + 65) as char
    } else if v < 52 {
        (v - 26 + 97) as char
    } else if v < 62 {
        (v - 52 + 48) as char
    } else if v == 62 {
        '+'
    } else {
        '/'
    }
}

/// The base64 writing of `b` (RFC 4648), with `=` padding.
pub open spec fn base64(b: Seq<u8>) -> Seq<char>
    decreases b.len(),
{
    if b.len() == 0 {
        seq![]
    } else if b.len() == 1 {
        seq![b64_digit(b[0] as int / 4), b64_digit((b[0] as int % 4) * 16), '=', '=']
    } else if b.len() == 2 {
        seq![
            b64_digit(b[0] as int / 4),
            b64_digit((b[0] as int % 4) * 16 + b[1] as int / 16),
            b64_digit((b[1] as int % 16) * 4),
            '=',
        ]
    } else {
        seq![
            b64_digit(b[0] as int / 4),
            b64_digit((b[0] as int % 4) * 16 + b[1] as int / 16),
            b64_digit((b[1] as int % 16) * 4 + b[2] as int / 64),
            b64_digit(b[2] as int % 64),
        ] + base64(b.skip(3))
    }
}

fn b64_digit_exec(v: u8) -> (c: char)
    requires
        v < 64,
    ensures
        c == b64_digit(v as int),
{
    if v < 26 {
        (v + 65) as char
    } else if v < 52 {
        (v - 26 + 97) as char
    } else if v < 62 {
        (v - 52 + 48) as char
    } else if v == 62 {
        '+'
    } else {
        '/'
    }
}

/// The base64 writing of `b`.
pub fn base64_text(b: &[u8]) -> (r: String)
    ensures
        r@ == base64(b@),
{
    let mut out: Vec<char> = Vec::new();
    let mut i: usize = 0;
    assert(b@.skip(0) =~= b@);
    while i < b.len()
        invariant
            i <= b.len(),
            out@ + base64(b@.skip(i as int)) == base64(b@),
        decreases b.len() - i,
    {
        let rest = b.len() - i;
        let ghost s = b@.skip(i as int);
        let b0 = b[i];
        if rest == 1 {
            out.push(b64_digit_exec(b0 / 4));
            out.push(b64_digit_exec((b0 % 4) * 16));
            out.push('=');
            out.push('=');
            assert(out@ =~= base64(b@));
            i = b.len();
            assert(b@.skip(i as int) =~= Seq::<u8>::empty());
        } else if rest == 2 {
            let b1 = b[i + 1];
            out.push(b64_digit_exec(b0 / 4));
            out.push(b64_digit_exec((b0 % 4) * 16 + b1 / 16));
            out.push(b64_digit_exec((b1 % 16) * 4));
            out.push('=');
            assert(out@ =~= base64(b@));
            i = b.len();
            assert(b@.skip(i as int) =~= Seq::<u8>::empty());
        } else {
            let b1 = b[i + 1];
            let b2 = b[i + 2];
            let ghost before = out@;
            out.push(b64_digit_exec(b0 / 4));
            out.push(b64_digit_exec((b0 % 4) * 16 + b1 / 16));
            out.push(b64_digit_exec((b1 % 16) * 4 + b2 / 64));
            out.push(b64_digit_exec(b2 % 64));
            assert(s.skip(3) =~= b@.skip(i + 3));
            assert(s[0] == b0 && s[1] == b1 && s[2] == b2);
            assert(out@ + base64(b@.skip(i + 3)) =~= before + base64(s));
            i = i + 3;
        }
    }
    assert(b@.skip(i as int) =~= Seq::<u8>::empty());
    assert(out@ + base64(b@.skip(i as int)) =~= out@);
    crate::text::string_of(out.as_slice())
}

/// The `Authorization` value for the user `id` and the password `password`
/// (HTTP Basic): `Basic ` and the base64 writing of the UTF-8 bytes of
/// `id:password`.
pub open spec fn basic_credentials_text(id: Seq<char>, password: Seq<char>) -> Seq<char> {
    "Basic "@ + base64(encode_utf8(id + ":"@ + password))
}

/// The `Authorization` value for the user `id` and the password `password`.
pub fn basic_credentials(id: &String, password: &String) -> (r: String)
    ensures
        r@ == basic_credentials_text(id@, password@),
{
    let mut pair = id.clone();
    pair.append(":");
    pair.append(password.as_str());
    let bytes = pair.as_str().as_bytes();
    let encoded = base64_text(bytes);
    let mut r = String::from_str("Basic ");
    r.append(encoded.as_str());
    r
}

/// The user is asked for credentials exactly when a page answers `401` and
/// `-a` was given.
pub fn needs_credentials(stat: &String, settings: &Settings) -> (r: bool)
    ensures
        r == (starts_with(stat@, "401"@) && settings@.respond_auth == Some(true)),
{
    let s = chars_of(stat.as_str());
    let code = chars_of("401");
    starts_with_exec(s.as_slice(), code.as_slice()) && settings.responds_to_auth()
}

} // verus!
