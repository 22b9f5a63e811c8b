//! The bytes of what a client sends.
use vstd::prelude::*;
use vstd::utf8::encode_utf8;

use crate::bounded::BoundedString;
use crate::limits::{delimiter, DELIM};
use crate::text::{decimal, is_short, U32_MAX_STR_LEN};

verus! {

/// The answer to a ping.
pub open spec fn pong_line() -> Seq<u8> {
    encode_utf8("PONG"@) + delimiter()
}

/// A subscription to a topic under a number.
pub open spec fn sub_line(topic: Seq<char>, sid: nat) -> Seq<u8> {
    encode_utf8("SUB "@) + encode_utf8(topic) + encode_utf8(" "@) + encode_utf8(decimal(sid))
        + delimiter()
}

/// The end of the subscription under a number.
pub open spec fn unsub_line(sid: nat) -> Seq<u8> {
    encode_utf8("UNSUB "@) + encode_utf8(decimal(sid)) + delimiter()
}

/// A payload published under a topic: a line with its length, then the payload.
pub open spec fn pub_message(topic: Seq<char>, data: Seq<u8>) -> Seq<u8> {
    encode_utf8("PUB "@) + encode_utf8(topic) + encode_utf8(" "@) + encode_utf8(decimal(data.len()))
        + delimiter() + data + delimiter()
}

/// What a client says of itself.
pub open spec fn connect_line(body: Seq<u8>) -> Seq<u8> {
    encode_utf8("CONNECT "@) + body + delimiter()
}

/// Appends bytes.
fn put(out: &mut Vec<u8>, bytes: &[u8])
    ensures
        final(out)@ == old(out)@ + bytes@,
{
    out.extend_from_slice(bytes);
    assert(out@ =~= old(out)@ + bytes@);
}

/// Appends the bytes of a text.
fn put_text(out: &mut Vec<u8>, text: &str)
    ensures
        final(out)@ == old(out)@ + encode_utf8(text@),
{
    put(out, text.as_bytes());
}

/// Appends a number in decimal.
fn put_number(out: &mut Vec<u8>, n: usize)
    requires
        is_short(n as nat),
    ensures
        final(out)@ == old(out)@ + encode_utf8(decimal(n as nat)),
{
    if let Some(digits) = BoundedString::<U32_MAX_STR_LEN>::from_number(n) {
        put_text(out, digits.as_text());
    }
}

/// Appends the delimiter.
fn put_delimiter(out: &mut Vec<u8>)
    ensures
        final(out)@ == old(out)@ + delimiter(),
{
    out.push(DELIM[0]);
    out.push(DELIM[1]);
    assert(out@ =~= old(out)@ + delimiter());
}

/// Appends the answer to a ping.
pub fn put_pong(out: &mut Vec<u8>)
    ensures
        final(out)@ == old(out)@ + pong_line(),
        final(out)@ == old(out)@ + (encode_utf8("PONG"@) + seq![13u8, 10u8]),
{
    put_text(out, "PONG");
    put_delimiter(out);
    assert(out@ =~= old(out)@ + pong_line());
}

/// Appends a subscription.
pub fn put_sub(out: &mut Vec<u8>, topic: &str, sid: usize)
    requires
        is_short(sid as nat),
    ensures
        final(out)@ == old(out)@ + sub_line(topic@, sid as nat),
        final(out)@ == old(out)@ + (encode_utf8("SUB "@) + encode_utf8(topic@) + encode_utf8(" "@)
            + encode_utf8(decimal(sid as nat)) + seq![13u8, 10u8]),
{
    put_text(out, "SUB ");
    put_text(out, topic);
    put_text(out, " ");
    put_number(out, sid);
    put_delimiter(out);
    assert(out@ =~= old(out)@ + sub_line(topic@, sid as nat));
}

/// Appends the end of a subscription.
pub fn put_unsub(out: &mut Vec<u8>, sid: usize)
    requires
        is_short(sid as nat),
    ensures
        final(out)@ == old(out)@ + unsub_line(sid as nat),
        final(out)@ == old(out)@ + (encode_utf8("UNSUB "@) + encode_utf8(decimal(sid as nat))
            + seq![13u8, 10u8]),
{
    put_text(out, "UNSUB ");
    put_number(out, sid);
    put_delimiter(out);
    assert(out@ =~= old(out)@ + unsub_line(sid as nat));
}

/// Appends a payload published under a topic.
pub fn put_pub(out: &mut Vec<u8>, topic: &str, data: &[u8])
    requires
        is_short(data@.len()),
    ensures
        final(out)@ == old(out)@ + pub_message(topic@, data@),
        final(out)@ == old(out)@ + (encode_utf8("PUB "@) + encode_utf8(topic@) + encode_utf8(" "@)
            + encode_utf8(decimal(data@.len())) + seq![13u8, 10u8] + data@ + seq![13u8, 10u8]),
{
    put_text(out, "PUB ");
    put_text(out, topic);
    put_text(out, " ");
    put_number(out, data.len());
    put_delimiter(out);
    put(out, data);
    put_delimiter(out);
    assert(out@ =~= old(out)@ + pub_message(topic@, data@));
}

/// Appends what a client says of itself.
pub fn put_connect(out: &mut Vec<u8>, body: &[u8])
    ensures
        final(out)@ == old(out)@ + connect_line(body@),
        final(out)@ == old(out)@ + (encode_utf8("CONNECT "@) + body@ + seq![13u8, 10u8]),
{
    put_text(out, "CONNECT ");
    put(out, body);
    put_delimiter(out);
    assert(out@ =~= old(out)@ + connect_line(body@));
}

} // verus!
