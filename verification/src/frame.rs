//! Frames: how a message body travels on a byte stream.
//!
//! A frame is a delimiter, the length of the body as a big-endian `u32`, and
//! the body.
use crate::archive::{
    archive, archive_len, archived_bytes, archiving_failed, lemma_archiving_failed,
    value_fits, value_text,
};
use crate::message::{
    client_message_value, client_payload, client_value, law_client_message_read_back,
    law_server_message_read_back, reads_as_client_message, reads_as_server_message,
    server_message_value, server_payload, server_value, ReliableClientMessage,
    ReliableServerMessage,
};
use vstd::prelude::*;
use vstd::utf8::encode_utf8;

verus! {

/// The bytes that announce a frame.
pub const DELIMITER: [u8; 1] = [0x7e];

/// The length of a message body, as it stands in a frame.
pub type MessageSize = [u8; 4];

/// The number of lengths that a frame can tell apart.
pub open spec fn size_modulus() -> int {
    0x1_0000_0000
}

/// The length of a frame without its body.
pub open spec fn header_len() -> nat {
    5
}

/// `size` as four bytes, the most significant one first.
pub open spec fn size_bytes(size: int) -> Seq<u8> {
    seq![
        (size / 0x100_0000 % 0x100) as u8,
        (size / 0x1_0000 % 0x100) as u8,
        (size / 0x100 % 0x100) as u8,
        (size % 0x100) as u8,
    ]
}

/// The number that four bytes make up, the most significant one first.
pub open spec fn bytes_size(bytes: Seq<u8>) -> int {
    bytes[0] * 0x100_0000 + bytes[1] * 0x1_0000 + bytes[2] * 0x100 + bytes[3]
}

/// The frame of a body. A body that is too long for its length to be written
/// in four bytes has the low four bytes of its length in its frame.
pub open spec fn frame(payload: Seq<u8>) -> Seq<u8> {
    DELIMITER@ + size_bytes(payload.len() as int % size_modulus()) + payload
}

/// The frames of a sequence of bodies, one after the other.
pub open spec fn frames(payloads: Seq<Seq<u8>>) -> Seq<u8>
    decreases payloads.len(),
{
    if payloads.len() == 0 {
        seq![]
    } else {
        frame(payloads.first()) + frames(payloads.drop_first())
    }
}

/// A body whose length its frame tells in full.
pub open spec fn fits_frame(payload: Seq<u8>) -> bool {
    payload.len() < size_modulus()
}

/// A length that was written in four bytes is read back.
pub proof fn law_size_survives(size: int)
    requires
        0 <= size < size_modulus(),
    ensures
        size_bytes(size).len() == 4,
        bytes_size(size_bytes(size)) == size,
{
    assert(size / 0x1_0000 == size / 0x100 / 0x100);
    assert(size / 0x100_0000 == size / 0x1_0000 / 0x100);
    assert(size / 0x100_0000 % 0x100 == size / 0x100_0000);
}

/// Four bytes that were read as a length are the bytes in which that length
/// is written.
#[verifier::spinoff_prover]
pub proof fn law_size_bytes_survive(bytes: Seq<u8>)
    requires
        bytes.len() == 4,
    ensures
        0 <= bytes_size(bytes) < size_modulus(),
        size_bytes(bytes_size(bytes)) == bytes,
{
    let size = bytes_size(bytes);
    let (a, b, c, d) = (bytes[0] as int, bytes[1] as int, bytes[2] as int, bytes[3] as int);
    assert(size == ((a * 0x100 + b) * 0x100 + c) * 0x100 + d);
    assert(size / 0x100 == (a * 0x100 + b) * 0x100 + c);
    assert(size / 0x1_0000 == a * 0x100 + b);
    assert(size / 0x100_0000 == a);
    assert(size % 0x100 == d);
    assert((size / 0x100) % 0x100 == c);
    assert((size / 0x1_0000) % 0x100 == b);
    assert(a % 0x100 == a);
    assert(size_bytes(bytes_size(bytes)) =~= bytes);
}

/// Two bodies have the same frame only if they are the same.
pub proof fn law_frame_injective(left: Seq<u8>, right: Seq<u8>)
    requires
        frame(left) == frame(right),
    ensures
        left == right,
{
    let skipped = header_len() as int;
    assert(frame(left).skip(skipped) =~= left);
    assert(frame(right).skip(skipped) =~= right);
}

/// Writes a length as four bytes, the most significant one first.
pub fn encode_size(size: u32) -> (bytes: MessageSize)
    ensures
        bytes@ == size_bytes(size as int),
        bytes@[0] * 0x100_0000 + bytes@[1] * 0x1_0000 + bytes@[2] * 0x100 + bytes@[3]
            == size,
{
    let bytes: MessageSize = [
        (size / 0x100_0000) as u8,
        (size / 0x1_0000 % 0x100) as u8,
        (size / 0x100 % 0x100) as u8,
        (size % 0x100) as u8,
    ];
    assert(bytes@ =~= size_bytes(size as int));
    proof {
        law_size_survives(size as int);
    }
    bytes
}

/// Reads a length from four bytes, the most significant one first.
pub fn decode_size(bytes: MessageSize) -> (size: u32)
    ensures
        size == bytes_size(bytes@),
        size == bytes@[0] * 0x100_0000 + bytes@[1] * 0x1_0000 + bytes@[2] * 0x100 + bytes@[3],
{
    bytes[0] as u32 * 0x100_0000 + bytes[1] as u32 * 0x1_0000 + bytes[2] as u32 * 0x100
        + bytes[3] as u32
}

/// Puts the header in front of a message body.
pub fn frame_payload(payload: &[u8]) -> (framed: Vec<u8>)
    ensures
        framed@ == frame(payload@),
        framed@.len() == 5 + payload@.len(),
        framed@[0] == 0x7e,
        framed@[1] * 0x100_0000 + framed@[2] * 0x1_0000 + framed@[3] * 0x100 + framed@[4]
            == payload@.len() as int % 0x1_0000_0000,
        framed@.skip(5) == payload@,
{
    let len: u64 = payload.len() as u64;
    let size: u32 = #[verifier::truncate] (len as u32);
    assert(size == len % 0x1_0000_0000) by (bit_vector)
        requires
            size == len as u32,
    ;
    let size_field = encode_size(size);
    let mut framed: Vec<u8> = Vec::new();
    framed.extend_from_slice(&DELIMITER);
    framed.extend_from_slice(&size_field);
    framed.extend_from_slice(payload);
    assert(framed@ =~= frame(payload@));
    proof {
        law_frame_layout(payload@);
    }
    framed
}

/// Why a message could not be written: `rkyv` refused to archive it.
#[derive(Debug)]
pub struct SerializeError(pub rkyv::rancor::Error);

/// The frame of a body, given what came of the attempt to archive it: that of
/// the archive, or `rkyv`'s error.
pub fn framed_from(archived: Result<Vec<u8>, rkyv::rancor::Error>) -> (framed: Result<
    Vec<u8>,
    SerializeError,
>)
    ensures
        match archived {
            Ok(payload) => framed is Ok && framed->Ok_0@ == frame(payload@),
            Err(error) => framed == Err::<Vec<u8>, SerializeError>(SerializeError(error)),
        },
{
    match archived {
        Ok(payload) => Ok(frame_payload(payload.as_slice())),
        Err(error) => Err(SerializeError(error)),
    }
}

/// The header of a frame tells the length of the body, and the body follows
/// it.
pub proof fn law_frame_parts(payload: Seq<u8>)
    requires
        fits_frame(payload),
    ensures
        frame(payload).len() == header_len() + payload.len(),
        frame(payload).take(1) == DELIMITER@,
        bytes_size(frame(payload).subrange(1, header_len() as int)) == payload.len(),
        frame(payload).skip(header_len() as int) == payload,
{
    law_size_survives(payload.len() as int);
    assert(frame(payload).take(1) =~= DELIMITER@);
    assert(frame(payload).subrange(1, header_len() as int) =~= size_bytes(payload.len() as int));
    assert(frame(payload).skip(header_len() as int) =~= payload);
}

/// The bytes of a frame, one by one: the delimiter `0x7e`, then four bytes that
/// make up the length of the body, the most significant one first, and then the
/// body itself. Of a length of more than four bytes the low four are written.
pub proof fn law_frame_layout(payload: Seq<u8>)
    ensures
        frame(payload).len() == 5 + payload.len(),
        frame(payload)[0] == 0x7e,
        frame(payload)[1] * 0x100_0000 + frame(payload)[2] * 0x1_0000 + frame(payload)[3] * 0x100
            + frame(payload)[4] == payload.len() as int % 0x1_0000_0000,
        frame(payload).skip(5) == payload,
        header_len() == 5,
        fits_frame(payload) <==> payload.len() <= u32::MAX,
{
    let size = payload.len() as int % 0x1_0000_0000;
    law_size_survives(size);
    let field = size_bytes(size);
    assert(frame(payload)[1] == field[0]);
    assert(frame(payload)[2] == field[1]);
    assert(frame(payload)[3] == field[2]);
    assert(frame(payload)[4] == field[3]);
    assert(frame(payload).skip(5) =~= payload);
}

/// A length is written big-endian: its four bytes, the first one worth 2^24,
/// the second 2^16, the third 2^8 and the last 1, add up to it.
pub proof fn law_size_written_big_endian(size: u32, bytes: MessageSize)
    requires
        call_ensures(encode_size, (size,), bytes),
    ensures
        bytes@[0] * 0x100_0000 + bytes@[1] * 0x1_0000 + bytes@[2] * 0x100 + bytes@[3] == size,
{
}

/// A length is read big-endian, and the larger of two lengths is the one whose
/// first different byte is larger.
pub proof fn law_size_read_big_endian(
    left: MessageSize,
    left_size: u32,
    right: MessageSize,
    right_size: u32,
)
    requires
        call_ensures(decode_size, (left,), left_size),
        call_ensures(decode_size, (right,), right_size),
    ensures
        left_size == left@[0] * 0x100_0000 + left@[1] * 0x1_0000 + left@[2] * 0x100 + left@[3],
        left@[0] < right@[0] ==> left_size < right_size,
        left@[0] == right@[0] && left@[1] < right@[1] ==> left_size < right_size,
        left@[0] == right@[0] && left@[1] == right@[1] && left@[2] < right@[2] ==> left_size
            < right_size,
        left@[0] == right@[0] && left@[1] == right@[1] && left@[2] == right@[2] && left@[3]
            < right@[3] ==> left_size < right_size,
{
}

/// Writes a client message as a frame. Fails with the error with which `rkyv`
/// refuses to archive the message.
pub fn serialize_client_message(message: &ReliableClientMessage) -> (framed: Result<
    Vec<u8>,
    SerializeError,
>)
    ensures
        match *message {
            ReliableClientMessage::PlayerJoined { player_id } => match archived_bytes(
                Ok(player_id@),
            ) {
                Some(body) => framed is Ok && framed->Ok_0@ == frame(body),
                None => framed is Err,
            },
            ReliableClientMessage::Quit { player_id } => match archived_bytes(Err(player_id@)) {
                Some(body) => framed is Ok && framed->Ok_0@ == frame(body),
                None => framed is Err,
            },
        },
        match client_payload(message@) {
            Some(payload) => framed is Ok && framed->Ok_0@ == frame(payload),
            None => framed is Err && archiving_failed(
                client_value(message@),
                framed->Err_0.0,
            ),
        },
        framed is Ok && fits_frame(client_payload(message@)->0) ==> {
            &&& bytes_size(framed->Ok_0@.subrange(1, header_len() as int))
                == framed->Ok_0@.len() - header_len()
            &&& reads_as_client_message(framed->Ok_0@.skip(header_len() as int), message@)
        },
        value_fits(client_value(message@)) ==> {
            &&& framed is Ok
            &&& fits_frame(client_payload(message@)->0)
            &&& framed->Ok_0@.len() == header_len() + archive_len(
                encode_utf8(value_text(client_value(message@))).len(),
            )
        },
{
    let value = client_message_value(message);
    let archived = archive(&value);
    proof {
        if archived is Err {
            lemma_archiving_failed(value, archived->Err_0);
        }
    }
    let framed = framed_from(archived);
    proof {
        if framed is Ok && fits_frame(client_payload(message@)->0) {
            law_frame_parts(client_payload(message@)->0);
            law_client_message_read_back(message@);
        }
    }
    framed
}

/// Writes a server message as a frame. Fails with the error with which `rkyv`
/// refuses to archive the message.
pub fn serialize_reliable_server_message(message: &ReliableServerMessage) -> (framed: Result<
    Vec<u8>,
    SerializeError,
>)
    ensures
        match *message {
            ReliableServerMessage::Hello { player_id } => match archived_bytes(Ok(player_id@)) {
                Some(body) => framed is Ok && framed->Ok_0@ == frame(body),
                None => framed is Err,
            },
        },
        match server_payload(message@) {
            Some(payload) => framed is Ok && framed->Ok_0@ == frame(payload),
            None => framed is Err && archiving_failed(
                server_value(message@),
                framed->Err_0.0,
            ),
        },
        framed is Ok && fits_frame(server_payload(message@)->0) ==> {
            &&& bytes_size(framed->Ok_0@.subrange(1, header_len() as int))
                == framed->Ok_0@.len() - header_len()
            &&& reads_as_server_message(framed->Ok_0@.skip(header_len() as int), message@)
        },
        value_fits(server_value(message@)) ==> {
            &&& framed is Ok
            &&& fits_frame(server_payload(message@)->0)
            &&& framed->Ok_0@.len() == header_len() + archive_len(
                encode_utf8(value_text(server_value(message@))).len(),
            )
        },
{
    let value = server_message_value(message);
    let archived = archive(&value);
    proof {
        if archived is Err {
            lemma_archiving_failed(value, archived->Err_0);
        }
    }
    let framed = framed_from(archived);
    proof {
        if framed is Ok && fits_frame(server_payload(message@)->0) {
            law_frame_parts(server_payload(message@)->0);
            law_server_message_read_back(message@);
        }
    }
    framed
}

} // verus!
