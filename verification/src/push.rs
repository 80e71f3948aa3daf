//! What happens to a request after it has been encoded: compression of the
//! payload and the reading of the endpoint's answer.

use vstd::prelude::*;

verus! {

/// The error type of the `snap` crate.
#[verifier::external_type_specification]
#[verifier::external_body]
pub struct ExSnapError(snap::Error);

/// The raw Snappy block that the `snap` crate's encoder produces for
/// `input`.
pub uninterp spec fn snappy(input: Seq<u8>) -> Seq<u8>;

/// Whether a payload of `len` bytes can be compressed: the largest block it
/// may compress to, `32 + len + len / 6` bytes, must be addressable with 32
/// bits.
pub open spec fn compressible(len: nat) -> bool {
    32 + len + len / 6 <= u32::MAX
}

/// Why a flush did not reach the endpoint.
#[derive(Clone, Copy, Debug, PartialEq, Eq, Structural)]
pub enum PushError {
    /// The encoded request is too big to be compressed.
    TooBig,
}

/// An answer of the endpoint that refuses the request.
#[derive(Clone, Copy, Debug, PartialEq, Eq, Structural)]
pub enum Rejection {
    /// A status from 400 to 499.
    Client,
    /// A status from 500 to 599.
    Server,
}

/// `snap::raw::Encoder::compress_vec` on a new encoder. It fails exactly
/// when the input is too big to be compressed, and otherwise returns the raw
/// Snappy block for the input, which depends on the input alone.
#[verifier::external_body]
fn snappy_compress(input: &Vec<u8>) -> (r: Result<Vec<u8>, snap::Error>)
    ensures
        r is Ok <==> compressible(input@.len()),
        r matches Ok(block) ==> block@ == snappy(input@),
{
    snap::raw::Encoder::new().compress_vec(input)
}

/// What the outcome of a compression means for the flush: the block goes
/// out as it is, and any failure abandons the flush.
pub fn payload(outcome: Result<Vec<u8>, snap::Error>) -> (r: Result<Vec<u8>, PushError>)
    ensures
        match outcome {
            Ok(block) => r == Ok::<Vec<u8>, PushError>(block),
            Err(_) => r == Err::<Vec<u8>, PushError>(PushError::TooBig),
        },
{
    match outcome {
        Ok(block) => Ok(block),
        Err(_) => Err(PushError::TooBig),
    }
}

/// Compresses an encoded request into the payload of the push.
pub fn compress(encoded: &Vec<u8>) -> (r: Result<Vec<u8>, PushError>)
    ensures
        match r {
            Ok(block) => compressible(encoded@.len()) && block@ == snappy(encoded@),
            Err(error) => !compressible(encoded@.len()) && error == PushError::TooBig,
        },
{
    payload(snappy_compress(encoded))
}

/// How a response status refuses a request, if it does.
pub open spec fn rejection_of(status: u16) -> Option<Rejection> {
    if 400 <= status < 500 {
        Some(Rejection::Client)
    } else if 500 <= status < 600 {
        Some(Rejection::Server)
    } else {
        None
    }
}

/// Reads the status of the endpoint's response: a client or server error is
/// worth reporting, and no status makes the flush be tried again.
pub fn rejection(status: u16) -> (r: Option<Rejection>)
    ensures
        r == rejection_of(status),
{
    if 400 <= status && status < 500 {
        Some(Rejection::Client)
    } else if 500 <= status && status < 600 {
        Some(Rejection::Server)
    } else {
        None
    }
}

} // verus!
