use vstd::prelude::*;

use crate::json::{dec_digits, json_array, push_dec, render_json};
use crate::reading::Reading;

verus! {

/// The status line: `HTTP/1.1 200 OK` and its line ending.
pub open spec fn lit_status_line() -> Seq<u8> {
    seq![72u8, 84, 84, 80, 47, 49, 46, 49, 32, 50, 48, 48, 32, 79, 75, 13, 10]
}

/// The content-type header line: `Content-Type: application/json; charset=utf-8`.
pub open spec fn lit_content_type() -> Seq<u8> {
    seq![67u8, 111, 110, 116, 101, 110, 116, 45, 84, 121, 112, 101, 58, 32, 97, 112, 112, 108, 105, 99, 97, 116, 105, 111, 110, 47, 106, 115, 111, 110, 59, 32, 99, 104, 97, 114, 115, 101, 116, 61, 117, 116, 102, 45, 56, 13, 10]
}

/// The content-length header up to its value: `Content-Length: `.
pub open spec fn lit_content_length_key() -> Seq<u8> {
    seq![67u8, 111, 110, 116, 101, 110, 116, 45, 76, 101, 110, 103, 116, 104, 58, 32]
}

/// A whole response: status line, content type, a content length equal to
/// the exact byte length of the body, a blank line, then the body.
pub open spec fn http_response_bytes(body: Seq<u8>) -> Seq<u8> {
    lit_status_line() + lit_content_type() + lit_content_length_key() + dec_digits(
        body.len() as nat,
    ) + seq![13u8, 10, 13, 10] + body
}

fn push_status_line(out: &mut Vec<u8>)
    ensures
        final(out)@ == old(out)@ + lit_status_line(),
{
    out.push(72);
    out.push(84);
    out.push(84);
    out.push(80);
    out.push(47);
    out.push(49);
    out.push(46);
    out.push(49);
    out.push(32);
    out.push(50);
    out.push(48);
    out.push(48);
    out.push(32);
    out.push(79);
    out.push(75);
    out.push(13);
    out.push(10);
    proof {
        assert(final(out)@ =~= old(out)@ + lit_status_line());
    }
}

fn push_content_type(out: &mut Vec<u8>)
    ensures
        final(out)@ == old(out)@ + lit_content_type(),
{
    out.push(67);
    out.push(111);
    out.push(110);
    out.push(116);
    out.push(101);
    out.push(110);
    out.push(116);
    out.push(45);
    out.push(84);
    out.push(121);
    out.push(112);
    out.push(101);
    out.push(58);
    out.push(32);
    out.push(97);
    out.push(112);
    out.push(112);
    out.push(108);
    out.push(105);
    out.push(99);
    out.push(97);
    out.push(116);
    out.push(105);
    out.push(111);
    out.push(110);
    out.push(47);
    out.push(106);
    out.push(115);
    out.push(111);
    out.push(110);
    out.push(59);
    out.push(32);
    out.push(99);
    out.push(104);
    out.push(97);
    out.push(114);
    out.push(115);
    out.push(101);
    out.push(116);
    out.push(61);
    out.push(117);
    out.push(116);
    out.push(102);
    out.push(45);
    out.push(56);
    out.push(13);
    out.push(10);
    proof {
        assert(final(out)@ =~= old(out)@ + lit_content_type());
    }
}

fn push_content_length_key(out: &mut Vec<u8>)
    ensures
        final(out)@ == old(out)@ + lit_content_length_key(),
{
    out.push(67);
    out.push(111);
    out.push(110);
    out.push(116);
    out.push(101);
    out.push(110);
    out.push(116);
    out.push(45);
    out.push(76);
    out.push(101);
    out.push(110);
    out.push(103);
    out.push(116);
    out.push(104);
    out.push(58);
    out.push(32);
    proof {
        assert(final(out)@ =~= old(out)@ + lit_content_length_key());
    }
}

/// Frames a JSON body as the one response the server ever sends. The
/// content length is the exact byte length of the body.
pub fn http_response(body: &Vec<u8>) -> (out: Vec<u8>)
    ensures
        out@ == http_response_bytes(body@),
{
    let mut out: Vec<u8> = Vec::new();
    push_status_line(&mut out);
    push_content_type(&mut out);
    push_content_length_key(&mut out);
    push_dec(&mut out, body.len() as u64);
    out.push(13);
    out.push(10);
    out.push(13);
    out.push(10);
    let mut i: usize = 0;
    while i < body.len()
        invariant
            0 <= i <= body@.len(),
            out@ == lit_status_line() + lit_content_type() + lit_content_length_key()
                + dec_digits(body@.len() as nat) + seq![13u8, 10, 13, 10] + body@.take(i as int),
        decreases body.len() - i,
    {
        out.push(body[i]);
        proof {
            assert(out@ =~= lit_status_line() + lit_content_type() + lit_content_length_key()
                + dec_digits(body@.len() as nat) + seq![13u8, 10, 13, 10] + body@.take(
                i as int + 1,
            ));
        }
        i += 1;
    }
    proof {
        assert(body@.take(body@.len() as int) =~= body@);
    }
    out
}

/// What the query side sends for one snapshot: the snapshot rendered as
/// JSON, framed as a response.
pub fn respond_snapshot(readings: &Vec<Reading>) -> (out: Vec<u8>)
    ensures
        out@ == http_response_bytes(json_array(readings@)),
{
    let body = render_json(readings);
    http_response(&body)
}

} // verus!
