//! Native-messaging frames: a little-endian length prefix of four bytes, followed
//! by a JSON body.

use crate::json::outside::{bytes_hold, parsed_bytes, printed, reads_back};
use crate::json::tree::nested_within;
use crate::json::value::Json;
use crate::text::viewed;
use vstd::prelude::*;
use vstd::utf8::encode_utf8;

verus! {

/// The four bytes of a number that fits in them, the lowest first.
pub open spec fn little_endian(n: nat) -> Seq<u8>
    recommends
        n <= u32::MAX,
{
    seq![
        (n % 256) as u8,
        (n / 256 % 256) as u8,
        (n / 65536 % 256) as u8,
        (n / 16777216) as u8,
    ]
}

/// The number that four bytes denote, the lowest first.
pub open spec fn little_endian_value(bytes: Seq<u8>) -> nat {
    (bytes[0] + 256 * bytes[1] + 65536 * bytes[2] + 16777216 * bytes[3]) as nat
}

/// The prefix for a body of some length; none can tell a length that does not fit.
pub open spec fn prefix_of(length: nat) -> Result<Seq<u8>, Seq<char>> {
    if length <= u32::MAX {
        Ok(little_endian(length))
    } else {
        Err("message too long for a frame"@)
    }
}

/// A body behind its length prefix.
pub open spec fn framed(body: Seq<u8>) -> Result<Seq<u8>, Seq<char>> {
    match prefix_of(body.len()) {
        Ok(prefix) => Ok(prefix + body),
        Err(message) => Err(message),
    }
}

/// The length of the body that follows a prefix.
pub fn frame_length(prefix: [u8; 4]) -> (length: u32)
    ensures
        length == little_endian_value(prefix@),
{
    prefix[0] as u32 + 256 * (prefix[1] as u32) + 65536 * (prefix[2] as u32) + 16777216 * (
    prefix[3] as u32)
}

/// The prefix for a body of some length. It is read as that length.
pub fn frame_prefix(length: usize) -> (r: Result<Vec<u8>, String>)
    ensures
        viewed(r) == prefix_of(length as nat),
        r is Ok <==> length <= u32::MAX,
        r matches Ok(prefix) ==> prefix@.len() == 4 && little_endian_value(prefix@) == length,
{
    if length as u64 > 0xffff_ffff {
        return Err("message too long for a frame".to_owned());
    }
    let n = length as u32;
    let mut prefix: Vec<u8> = Vec::new();
    prefix.push((n % 256) as u8);
    prefix.push((n / 256 % 256) as u8);
    prefix.push((n / 65536 % 256) as u8);
    prefix.push((n / 16777216) as u8);
    proof {
        assert(prefix@ =~= little_endian(n as nat));
        lemma_little_endian(n);
    }
    Ok(prefix)
}

/// Read the body of a frame. What is read is not nested deeper than the parser goes.
pub fn read_body(body: &[u8]) -> (r: Result<Json, String>)
    ensures
        viewed(r) == parsed_bytes(body@),
        r matches Ok(json) ==> nested_within(json@, 127),
{
    Json::parse_bytes(body)
}

/// Write a message down as a frame. Its prefix is the length of its body, and its body
/// is read back as the message. A message whose length no prefix can tell is refused.
pub fn write_frame(message: Json) -> (r: Result<Vec<u8>, String>)
    ensures
        viewed(r) == framed(encode_utf8(printed(message@))),
        r is Ok <==> encode_utf8(printed(message@)).len() <= u32::MAX,
        r matches Ok(frame) ==> {
            &&& frame@.skip(4) == encode_utf8(printed(message@))
            &&& little_endian_value(frame@.take(4)) == frame@.len() - 4
            &&& reads_back(message@) ==> bytes_hold(frame@.skip(4), message@)
        },
{
    let mut body = message.into_bytes();
    match frame_prefix(body.len()) {
        Ok(prefix) => {
            let ghost content = body@;
            let mut frame = prefix;
            frame.append(&mut body);
            assert(frame@.take(4) =~= prefix@);
            assert(frame@.skip(4) =~= content);
            Ok(frame)
        },
        Err(message) => Err(message),
    }
}

proof fn lemma_little_endian(n: u32)
    ensures
        little_endian_value(little_endian(n as nat)) == n,
{
    assert(n == n % 256 + 256 * (n / 256 % 256) + 65536 * (n / 65536 % 256) + 16777216 * (n
        / 16777216) && n / 16777216 < 256) by (bit_vector);
}

/// The prefix of a frame tells where its body ends, whatever follows it.
pub proof fn law_prefix_delimits_the_body(body: Seq<u8>, rest: Seq<u8>)
    ensures
        framed(body) matches Ok(frame) ==> {
            &&& little_endian_value((frame + rest).take(4)) == body.len()
            &&& (frame + rest).subrange(4, 4 + body.len() as int) == body
            &&& (frame + rest).skip(4 + body.len() as int) == rest
        },
{
    if let Ok(frame) = framed(body) {
        let stream = frame + rest;
        let n = body.len();
        assert(stream.take(4) =~= little_endian(n));
        lemma_little_endian(n as u32);
        assert(stream.subrange(4, 4 + n as int) =~= body);
        assert(stream.skip(4 + n as int) =~= rest);
    }
}

/// A frame is the length of its body, the lowest eight bits first, and then the body,
/// all of it. The prefix is read as the length.
pub proof fn law_frame_layout(body: Seq<u8>, n: u32)
    ensures
        ({
            let prefix = seq![
                (n & 0xff) as u8,
                (n >> 8 & 0xff) as u8,
                (n >> 16 & 0xff) as u8,
                (n >> 24 & 0xff) as u8,
            ];
            &&& little_endian_value(prefix) == n
            &&& prefix_of(n as nat) == Ok::<Seq<u8>, Seq<char>>(prefix)
            &&& body.len() == n ==> framed(body) == Ok::<Seq<u8>, Seq<char>>(prefix + body)
        }),
        body.len() > u32::MAX ==> framed(body) == Err::<Seq<u8>, Seq<char>>(
            "message too long for a frame"@,
        ),
{
    assert((n & 0xff) == n % 256 && (n >> 8 & 0xff) == n / 256 % 256 && (n >> 16 & 0xff) == n
        / 65536 % 256 && (n >> 24 & 0xff) == n / 16777216) by (bit_vector);
    lemma_little_endian(n);
    assert(seq![
        (n & 0xff) as u8,
        (n >> 8 & 0xff) as u8,
        (n >> 16 & 0xff) as u8,
        (n >> 24 & 0xff) as u8,
    ] =~= little_endian(n as nat));
}

} // verus!
