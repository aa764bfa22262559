//! Identifiers, the clock, and the rules for typed input.

use vstd::prelude::*;
use crate::crypto::random_array;
use crate::error::VaultError;
use crate::secret::SecretString;
use crate::text::{str_eq, trim, trimmed};

pub use crate::generator::{gen_password, pick_one, rand_index};

verus! {

/// A point in time of the system clock.
#[verifier::external_type_specification]
#[verifier::external_body]
pub struct ExSystemTime(std::time::SystemTime);

/// The error of a clock that stands before the reference point.
#[verifier::external_type_specification]
#[verifier::external_body]
pub struct ExSystemTimeError(std::time::SystemTimeError);

/// The error of bytes that are not UTF-8.
#[verifier::external_type_specification]
#[verifier::external_body]
pub struct ExFromUtf8Error(std::string::FromUtf8Error);

/// `String::from_utf8` succeeds exactly on valid UTF-8, and the string then
/// holds the characters that the bytes encode.
pub assume_specification[ String::from_utf8 ](vec: Vec<u8>) -> (r: Result<
    String,
    std::string::FromUtf8Error,
>)
    ensures
        r is Ok <==> vstd::utf8::valid_utf8(vec@),
        r is Ok ==> r->Ok_0@ == vstd::utf8::decode_utf8(vec@),
;

/// `SystemTime::now`: the system clock, of which nothing is known.
#[verifier::external_body]
fn system_now() -> std::time::SystemTime {
    std::time::SystemTime::now()
}

/// `SystemTime::duration_since`, counted from `UNIX_EPOCH`: the time since
/// the epoch, or an error for a clock that stands before it.
#[verifier::external_body]
fn since_epoch(now: &std::time::SystemTime) -> Result<
    std::time::Duration,
    std::time::SystemTimeError,
> {
    now.duration_since(std::time::UNIX_EPOCH)
}

/// `Duration::as_secs`: the whole seconds of a span.
#[verifier::external_body]
fn whole_seconds(span: &std::time::Duration) -> u64 {
    span.as_secs()
}

/// The time stamp for a count of seconds since the epoch: the count, or
/// the largest time stamp for a count beyond it, and zero where the clock
/// gave no count. A time stamp is never negative.
pub open spec fn stamp_of(seconds: Option<u64>) -> i64 {
    match seconds {
        Some(s) => if s > i64::MAX {
            i64::MAX
        } else {
            s as i64
        },
        None => 0,
    }
}

/// The time stamp for a count of seconds since the epoch.
pub fn unix_stamp(seconds: Option<u64>) -> (r: i64)
    ensures
        r == stamp_of(seconds),
        r >= 0,
{
    match seconds {
        Some(s) => if s > 0x7FFF_FFFF_FFFF_FFFF {
            i64::MAX
        } else {
            s as i64
        },
        None => 0,
    }
}

/// Seconds since the Unix epoch, by the system clock; zero for a clock that
/// stands before the epoch. Whatever the clock gives, the time stamp is not
/// negative.
pub fn now_unix() -> (r: i64)
    ensures
        r >= 0,
{
    let now = system_now();
    match since_epoch(&now) {
        Ok(span) => unix_stamp(Some(whole_seconds(&span))),
        Err(_) => unix_stamp(None),
    }
}

/// The text whose characters are the given ASCII bytes.
pub open spec fn ascii_text(bytes: Seq<u8>) -> Seq<char> {
    bytes.map_values(|b: u8| b as char)
}

/// Whether every byte is ASCII.
pub open spec fn all_ascii(bytes: Seq<u8>) -> bool {
    forall|i: int| 0 <= i < bytes.len() ==> #[trigger] bytes[i] < 128
}

/// ASCII bytes are the UTF-8 encoding of their own text.
pub proof fn lemma_ascii_is_utf8(bytes: Seq<u8>)
    requires
        all_ascii(bytes),
    ensures
        vstd::utf8::valid_utf8(bytes),
        vstd::utf8::decode_utf8(bytes) == ascii_text(bytes),
        vstd::utf8::encode_utf8(ascii_text(bytes)) == bytes,
{
    let chars = ascii_text(bytes);
    assert forall|i: int| 0 <= i < chars.len() implies '\0' <= #[trigger] chars[i] <= '\u{7f}' by {
        assert(bytes[i] < 128);
    }
    vstd::utf8::is_ascii_chars_encode_utf8(chars);
    assert forall|i: int| 0 <= i < bytes.len() implies vstd::utf8::encode_utf8(chars)[i]
        == bytes[i] by {
        assert(chars[i] as u8 == vstd::utf8::encode_utf8(chars)[i]);
        assert(bytes[i] < 128);
    }
    assert(vstd::utf8::encode_utf8(chars) =~= bytes);
    vstd::utf8::encode_utf8_valid_utf8(chars);
    vstd::utf8::encode_utf8_decode_utf8(chars);
}

/// The string of ASCII bytes.
pub(crate) fn string_of_ascii(bytes: Vec<u8>) -> (r: String)
    requires
        all_ascii(bytes@),
    ensures
        r@ == ascii_text(bytes@),
{
    proof {
        lemma_ascii_is_utf8(bytes@);
    }
    match String::from_utf8(bytes) {
        Ok(s) => s,
        Err(_) => String::new(),
    }
}

/// The lower-case hexadecimal digit of a number below sixteen.
pub open spec fn hex_digit(n: u8) -> u8 {
    if n < 10 {
        (48 + n) as u8
    } else {
        (87 + n) as u8
    }
}

/// The lower-case hexadecimal form of a byte string, two digits to the
/// byte, as ASCII bytes.
pub open spec fn hex_bytes(bytes: Seq<u8>) -> Seq<u8> {
    Seq::new(
        2 * bytes.len(),
        |i: int|
            if i % 2 == 0 {
                hex_digit(bytes[i / 2] / 16)
            } else {
                hex_digit(bytes[i / 2] % 16)
            },
    )
}

/// The lower-case hexadecimal form of a byte string, two digits to the
/// byte.
pub open spec fn hex_of(bytes: Seq<u8>) -> Seq<char> {
    ascii_text(hex_bytes(bytes))
}

fn hex_digit_of(n: u8) -> (r: u8)
    requires
        n < 16,
    ensures
        r == hex_digit(n),
        r < 128,
{
    if n < 10 {
        48 + n
    } else {
        87 + n
    }
}

/// Writes a byte string in lower-case hexadecimal.
pub fn to_hex(bytes: &[u8]) -> (r: String)
    ensures
        r@ == hex_of(bytes@),
        r@.len() == 2 * bytes@.len(),
{
    let mut out: Vec<u8> = Vec::new();
    let n = bytes.len();
    let mut i: usize = 0;
    while i < n
        invariant
            n == bytes@.len(),
            i <= n,
            out@.len() == 2 * i,
            forall|k: int| 0 <= k < 2 * i ==> #[trigger] out@[k] == hex_bytes(bytes@)[k],
            all_ascii(out@),
        decreases n - i,
    {
        let b = bytes[i];
        let high = hex_digit_of(b / 16);
        let low = hex_digit_of(b % 16);
        out.push(high);
        out.push(low);
        i += 1;
    }
    assert(out@ =~= hex_bytes(bytes@));
    string_of_ascii(out)
}

/// The id of sixteen random bytes: their lower-case hexadecimal form, 32
/// characters long.
pub fn id_from_bytes(bytes: &[u8; 16]) -> (id: String)
    ensures
        id@ == hex_of(bytes@),
        id@.len() == 32,
{
    to_hex(bytes.as_slice())
}

/// Whether a text is a record id: the lower-case hexadecimal form of
/// sixteen bytes, 32 characters long.
pub open spec fn is_record_id(id: Seq<char>) -> bool {
    id.len() == 32 && exists|bytes: Seq<u8>| bytes.len() == 16 && id == #[trigger] hex_of(bytes)
}

/// A new record id: the hexadecimal form of sixteen bytes from the random
/// source. It fails with `Crypto` where the random source fails.
pub fn new_id() -> (r: Result<String, VaultError>)
    ensures
        match r {
            Ok(id) => is_record_id(id@),
            Err(e) => e == VaultError::Crypto,
        },
{
    match random_array::<16>() {
        Ok(bytes) => {
            let id = id_from_bytes(&bytes);
            Ok(id)
        },
        Err(_) => Err(VaultError::Crypto),
    }
}

/// What a line of input stands for: the line without the white space
/// around it.
pub fn read_line(raw: &str) -> (r: String)
    ensures
        r@ == trimmed(raw@),
{
    trim(raw).to_owned()
}

/// What an answer to a prompt with a default stands for: the answer
/// without the white space around it, or the current value where nothing
/// is left.
pub fn prompt_with_default(answer: &str, current: &str) -> (r: String)
    ensures
        r@ == if trimmed(answer@).len() == 0 {
            current@
        } else {
            trimmed(answer@)
        },
{
    let s = trim(answer);
    if s.is_empty() {
        current.to_owned()
    } else {
        s.to_owned()
    }
}

/// What an answer to the prompt for an optional new password stands for:
/// no change for an empty answer, and otherwise the new password.
pub fn prompt_password_optional(answer: String) -> (r: Option<String>)
    ensures
        answer@.len() == 0 ==> r is None,
        answer@.len() != 0 ==> r == Some(answer),
{
    if answer.as_str().is_empty() {
        None
    } else {
        Some(answer)
    }
}

/// Accepts a new master password that was typed twice: the first entry
/// where the two are the same, and `Validation` where they differ.
pub fn prompt_new_password(first: SecretString, second: SecretString) -> (r: Result<
    SecretString,
    VaultError,
>)
    ensures
        first@ == second@ ==> r == Ok::<SecretString, VaultError>(first),
        first@ != second@ ==> r == Err::<SecretString, VaultError>(VaultError::Validation),
{
    if str_eq(first.expose(), second.expose()) {
        Ok(first)
    } else {
        Err(VaultError::Validation)
    }
}

/// Whether an answer to a yes-or-no question is a yes: `y` or `Y`, with
/// any white space around it.
pub fn confirm(answer: &str) -> (r: bool)
    ensures
        r == (trimmed(answer@) == seq!['y'] || trimmed(answer@) == seq!['Y']),
{
    let s = trim(answer);
    proof {
        reveal_strlit("y");
        reveal_strlit("Y");
        assert("y"@ =~= seq!['y']);
        assert("Y"@ =~= seq!['Y']);
    }
    str_eq(s, "y") || str_eq(s, "Y")
}

} // verus!
