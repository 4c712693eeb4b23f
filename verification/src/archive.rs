//! Archiving of message bodies with `rkyv`.
//!
//! A message body is archived as a `Result<String, String>`. `rkyv` lays out
//! the archive of such a value as a tag byte followed by a string: the same
//! bytes as those of an enum of two variants that hold one string each, the
//! first variant in the place of `Ok`.
use vstd::prelude::*;
use vstd::utf8::encode_utf8;

verus! {

/// `rkyv`'s error, carried through unread.
#[verifier::external_type_specification]
#[verifier::external_body]
pub struct ExRancorError(rkyv::rancor::Error);

/// The longest text, in bytes of UTF-8, that an archive is sure to hold.
pub const MAX_TEXT_BYTES: usize = 0x3fff_ffff;

/// A value to archive, seen through its text.
pub open spec fn value_view(value: Result<String, String>) -> Result<Seq<char>, Seq<char>> {
    match value {
        Ok(text) => Ok(text@),
        Err(text) => Err(text@),
    }
}

/// The text that a value holds, whichever variant it is.
pub open spec fn value_text(value: Result<Seq<char>, Seq<char>>) -> Seq<char> {
    match value {
        Ok(text) => text,
        Err(text) => text,
    }
}

/// The text of a value fits in an archive.
pub open spec fn value_fits(value: Result<Seq<char>, Seq<char>>) -> bool {
    encode_utf8(value_text(value)).len() <= MAX_TEXT_BYTES
}

/// The length of an archive whose text has `text_bytes` bytes: a text of up to
/// eight bytes lies within the twelve bytes of the root, a longer one lies in
/// front of it, filled up to a multiple of four.
pub open spec fn archive_len(text_bytes: nat) -> nat {
    if text_bytes <= 8 {
        12
    } else {
        ((text_bytes + 3) / 4 * 4 + 12) as nat
    }
}

/// The archive of a value as `rkyv::to_bytes` gives it, or `None` where it
/// gives an error.
pub uninterp spec fn archived_bytes(value: Result<Seq<char>, Seq<char>>) -> Option<Seq<u8>>;

/// The value that `rkyv::from_bytes` finds in an aligned archive, or `None`
/// where it gives an error.
pub uninterp spec fn archived_value(bytes: Seq<u8>) -> Option<Result<Seq<char>, Seq<char>>>;

/// Calls `rkyv::to_bytes`. Claimed of it: the archive depends on the value
/// alone; a text of up to `MAX_TEXT_BYTES` bytes is always archived; the
/// length of its archive is `archive_len`.
#[verifier::external_body]
pub(crate) fn archive(value: &Result<String, String>) -> (bytes: Result<
    Vec<u8>,
    rkyv::rancor::Error,
>)
    ensures
        match archived_bytes(value_view(*value)) {
            Some(expected) => bytes is Ok && bytes->Ok_0@ == expected,
            None => bytes is Err,
        },
        value_fits(value_view(*value)) ==> {
            &&& bytes is Ok
            &&& bytes->Ok_0@.len() == archive_len(
                encode_utf8(value_text(value_view(*value))).len(),
            )
        },
{
    match rkyv::to_bytes::<rkyv::rancor::Error>(value) {
        Ok(bytes) => Ok(bytes.into_vec()),
        Err(error) => Err(error),
    }
}

/// Calls `rkyv::from_bytes` on a copy of the bytes in an `AlignedVec`, since
/// `rkyv` takes an archive only at an aligned address. Claimed of it: what it
/// finds depends on the bytes alone; in the archive of a value, if the archive
/// has fewer than 2^32 bytes, it finds that value. (`rkyv` refuses to archive a
/// text of more than `MAX_TEXT_BYTES` and fewer than 2^32 bytes, and the
/// archive of a longer one is longer than its text.)
#[verifier::external_body]
pub(crate) fn unarchive(bytes: &[u8]) -> (value: Result<
    Result<String, String>,
    rkyv::rancor::Error,
>)
    ensures
        match archived_value(bytes@) {
            Some(expected) => value is Ok && value_view(value->Ok_0) == expected,
            None => value is Err,
        },
        forall|original: Result<Seq<char>, Seq<char>>|
            #[trigger] archived_bytes(original) == Some(bytes@) && bytes@.len() <= u32::MAX ==> {
                &&& value is Ok
                &&& value_view(value->Ok_0) == original
            },
{
    let mut aligned: rkyv::util::AlignedVec = rkyv::util::AlignedVec::with_capacity(bytes.len());
    aligned.extend_from_slice(bytes);
    rkyv::from_bytes::<Result<String, String>, rkyv::rancor::Error>(&aligned)
}

/// The error is one that the attempt to archive the value came back with.
pub closed spec fn archiving_failed(
    value: Result<Seq<char>, Seq<char>>,
    error: rkyv::rancor::Error,
) -> bool {
    exists|archived: Result<String, String>|
        value_view(archived) == value && #[trigger] call_ensures(
            archive,
            (&archived,),
            Err::<Vec<u8>, rkyv::rancor::Error>(error),
        )
}

/// The error is one that the attempt to read the bytes as an archive came back
/// with.
pub closed spec fn unarchiving_failed(bytes: Seq<u8>, error: rkyv::rancor::Error) -> bool {
    exists|read: &[u8]|
        read@ == bytes && #[trigger] call_ensures(
            unarchive,
            (read,),
            Err::<Result<String, String>, rkyv::rancor::Error>(error),
        )
}

pub(crate) proof fn lemma_archiving_failed(
    value: Result<String, String>,
    error: rkyv::rancor::Error,
)
    requires
        call_ensures(archive, (&value,), Err::<Vec<u8>, rkyv::rancor::Error>(error)),
    ensures
        archiving_failed(value_view(value), error),
{
}

pub(crate) proof fn lemma_unarchiving_failed(bytes: &[u8], error: rkyv::rancor::Error)
    requires
        call_ensures(
            unarchive,
            (bytes,),
            Err::<Result<String, String>, rkyv::rancor::Error>(error),
        ),
    ensures
        unarchiving_failed(bytes@, error),
{
}

/// A value is seen as the variant that it is, with its text.
pub proof fn law_values_seen_as_they_are(value: Result<String, String>, text: Seq<char>)
    ensures
        match value {
            Ok(held) => value_view(value) == Ok::<Seq<char>, Seq<char>>(held@),
            Err(held) => value_view(value) == Err::<Seq<char>, Seq<char>>(held@),
        },
        value_text(Ok(text)) == text,
        value_text(Err(text)) == text,
        value_fits(Ok(text)) <==> encode_utf8(text).len() < 0x4000_0000,
        value_fits(Err(text)) <==> encode_utf8(text).len() < 0x4000_0000,
{
}

/// The error of a value is one with which `archive` refused a value with the
/// same text under the same variant.
pub(crate) proof fn law_archive_refused(
    value: Result<Seq<char>, Seq<char>>,
    error: rkyv::rancor::Error,
)
    requires
        archiving_failed(value, error),
    ensures
        exists|refused: Result<String, String>|
            value_view(refused) == value && #[trigger] call_ensures(
                archive,
                (&refused,),
                Err::<Vec<u8>, rkyv::rancor::Error>(error),
            ),
{
}

/// The error of a sequence of bytes is one with which `unarchive` refused these
/// bytes.
pub(crate) proof fn law_unarchive_refused(bytes: Seq<u8>, error: rkyv::rancor::Error)
    requires
        unarchiving_failed(bytes, error),
    ensures
        exists|refused: &[u8]|
            refused@ == bytes && #[trigger] call_ensures(
                unarchive,
                (refused,),
                Err::<Result<String, String>, rkyv::rancor::Error>(error),
            ),
{
}

} // verus!
