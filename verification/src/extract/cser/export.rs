use vstd::prelude::*;

verus! {

/// The error type of std's input and output, carried through as it is.
#[verifier::external_type_specification]
#[verifier::external_body]
pub struct ExIoError(std::io::Error);

/// Why a record could not be written.
#[derive(Debug)]
pub enum TraceWriteError {
    /// The record could not be encoded.
    EncodeError,
    /// The encoded record could not be compressed.
    CompressError(std::io::Error),
    /// The bytes could not be written.
    IoError(std::io::Error),
}

pub type TraceWriteResult<T> = Result<T, TraceWriteError>;

/// The raw DEFLATE stream that flate2 makes of `data` at its default
/// compression level.
pub uninterp spec fn deflated(data: Seq<u8>) -> Seq<u8>;

/// flate2's `DeflateEncoder` over a byte vector, at `Compression::default()`:
/// all of `data` is written to the encoder and the encoder is finished. When
/// that goes through, the bytes returned are the compressed stream.
#[verifier::external_body]
fn deflate(data: &[u8]) -> (r: Result<Vec<u8>, std::io::Error>)
    ensures
        r matches Ok(z) ==> z@ == deflated(data@),
{
    let mut encoder = flate2::write::DeflateEncoder::new(Vec::new(), flate2::Compression::default());
    std::io::Write::write_all(&mut encoder, data)?;
    encoder.finish()
}

/// Turns the outcome of a compression into the outcome of writing a record:
/// the bytes as they are, a failure as a `CompressError`.
pub fn compress_outcome(r: Result<Vec<u8>, std::io::Error>) -> (o: TraceWriteResult<Vec<u8>>)
    ensures
        r matches Ok(z) ==> o matches Ok(z2) && z2 == z,
        r matches Err(e) ==> o matches Err(TraceWriteError::CompressError(e2)) && e2 == e,
{
    match r {
        Ok(z) => Ok(z),
        Err(e) => Err(TraceWriteError::CompressError(e)),
    }
}

/// Compresses an encoded record for writing. The outcome is either the
/// DEFLATE stream of `json` or a `CompressError`.
pub fn zipped(json: &[u8]) -> (o: TraceWriteResult<Vec<u8>>)
    ensures
        o matches Ok(z) ==> z@ == deflated(json@),
        o matches Err(e) ==> e is CompressError,
{
    compress_outcome(deflate(json))
}

} // verus!
