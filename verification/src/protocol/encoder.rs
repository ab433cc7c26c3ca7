//! RESP2 reply encoder.
//!
//! Each function appends one reply element to the caller's buffer, so a full
//! reply is composed by consecutive calls. Bulk payloads are raw bytes and may
//! hold anything, `\r\n` included.

use vstd::prelude::*;
use vstd::string::*;

use crate::bytes::push_all;
use crate::decimal::{dec_int, dec_nat, push_i64, push_u64};

verus! {

/// The line terminator of the protocol.
pub open spec fn crlf() -> Seq<u8> {
    seq![13u8, 10u8]
}

/// No carriage return and no line feed occurs in `s`.
pub open spec fn single_line(s: Seq<u8>) -> bool {
    forall|i: int| 0 <= i < s.len() ==> #[trigger] s[i] != 13 && s[i] != 10
}

/// `+text\r\n`
pub open spec fn simple_string(text: Seq<u8>) -> Seq<u8> {
    seq![43u8] + text + crlf()
}

/// `-message\r\n`
pub open spec fn error_line(message: Seq<u8>) -> Seq<u8> {
    seq![45u8] + message + crlf()
}

/// `:n\r\n`
pub open spec fn integer(n: int) -> Seq<u8> {
    seq![58u8] + dec_int(n) + crlf()
}

/// `$len\r\npayload\r\n`
pub open spec fn bulk_string(payload: Seq<u8>) -> Seq<u8> {
    seq![36u8] + dec_nat(payload.len()) + crlf() + payload + crlf()
}

/// `$-1\r\n`
pub open spec fn null_bulk() -> Seq<u8> {
    seq![36u8, 45u8, 49u8, 13u8, 10u8]
}

/// `*count\r\n`
pub open spec fn array_header(count: nat) -> Seq<u8> {
    seq![42u8] + dec_nat(count) + crlf()
}

/// Appends the line terminator.
pub fn push_crlf(buf: &mut Vec<u8>)
    ensures
        final(buf)@ == old(buf)@ + crlf(),
{
    buf.push(13);
    buf.push(10);
    assert(buf@ =~= old(buf)@ + crlf());
}

/// Appends a simple string. Simple strings are a single line, so `text` holds
/// neither `\r` nor `\n`.
pub fn encode_simple_string(buf: &mut Vec<u8>, text: &str)
    requires
        single_line(text.spec_bytes()),
    ensures
        final(buf)@ == old(buf)@ + simple_string(text.spec_bytes()),
{
    buf.push(43);
    push_all(buf, text.as_bytes());
    push_crlf(buf);
    assert(buf@ =~= old(buf)@ + simple_string(text.spec_bytes()));
}

/// Appends an error. The message is a single line; by convention its first
/// word is an upper-case prefix such as `ERR`, `WRONGTYPE` or `OOM`.
pub fn encode_error(buf: &mut Vec<u8>, message: &str)
    requires
        single_line(message.spec_bytes()),
    ensures
        final(buf)@ == old(buf)@ + error_line(message.spec_bytes()),
{
    buf.push(45);
    push_all(buf, message.as_bytes());
    push_crlf(buf);
    assert(buf@ =~= old(buf)@ + error_line(message.spec_bytes()));
}

/// Appends an integer.
pub fn encode_integer(buf: &mut Vec<u8>, n: i64)
    ensures
        final(buf)@ == old(buf)@ + integer(n as int),
{
    buf.push(58);
    push_i64(buf, n);
    push_crlf(buf);
    assert(buf@ =~= old(buf)@ + integer(n as int));
}

/// Appends a bulk string. The empty payload gives `$0\r\n\r\n`, which differs
/// from the null bulk.
pub fn encode_bulk_string(buf: &mut Vec<u8>, payload: &[u8])
    ensures
        final(buf)@ == old(buf)@ + bulk_string(payload@),
{
    buf.push(36);
    push_u64(buf, payload.len() as u64);
    push_crlf(buf);
    push_all(buf, payload);
    push_crlf(buf);
    assert(buf@ =~= old(buf)@ + bulk_string(payload@));
}

/// Appends the null bulk string, the reply for a missing value.
pub fn encode_null_bulk(buf: &mut Vec<u8>)
    ensures
        final(buf)@ == old(buf)@ + null_bulk(),
{
    buf.push(36);
    buf.push(45);
    buf.push(49);
    buf.push(13);
    buf.push(10);
    assert(buf@ =~= old(buf)@ + null_bulk());
}

/// Appends an array header; the caller follows it with `count` elements.
pub fn encode_array_header(buf: &mut Vec<u8>, count: usize)
    ensures
        final(buf)@ == old(buf)@ + array_header(count as nat),
{
    buf.push(42);
    push_u64(buf, count as u64);
    push_crlf(buf);
    assert(buf@ =~= old(buf)@ + array_header(count as nat));
}

} // verus!
