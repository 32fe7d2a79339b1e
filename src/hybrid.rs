//! The hybrid run-length / bit-packed decoders of parquet2, as the level
//! decoding relies on them.

use vstd::prelude::*;
use crate::levels::{runs_complete, Run};
use crate::stream::stream_safe;
use parquet2::deserialize::{HybridEncoded, HybridRleIter};
use parquet2::encoding::hybrid_rle::{Decoder, HybridRleDecoder};

verus! {

/// parquet2's error type, carried through unread.
#[verifier::external_type_specification]
#[verifier::external_body]
pub struct ExParquetError(parquet2::error::Error);

/// The runs of one-bit values that parquet2 reads from `data`, stopping once
/// `num_values` values are covered; `None` where it reports an error.
pub uninterp spec fn bit_runs_of(data: Seq<u8>, num_values: usize) -> Option<Seq<Run>>;

/// The `num_values` values `num_bits` wide that parquet2 decodes from `data`;
/// `None` where it reports an error.
pub uninterp spec fn hybrid_levels_of(data: Seq<u8>, num_bits: u32, num_values: usize) -> Option<
    Seq<u32>,
>;

/// Relies on parquet2's `hybrid_rle::Decoder` with bit width 1, read through
/// `HybridRleIter` capped at `num_values` values: all its runs, in order. A
/// bit-packed run's length is capped at eight times its byte count. On a
/// stream that `stream_safe` admits, the run reader does not panic.
#[verifier::external_body]
pub(crate) fn decode_bit_runs(data: &[u8], num_values: usize) -> (r: Result<
    Vec<Run>,
    parquet2::error::Error,
>)
    requires
        stream_safe(data@, 1),
    ensures
        r is Ok <==> bit_runs_of(data@, num_values) is Some,
        r matches Ok(runs) ==> bit_runs_of(data@, num_values) == Some(runs@) && runs_complete(
            runs@,
        ),
{
    HybridRleIter::new(Decoder::new(data, 1), num_values)
        .map(|run| run.map(|run| match run {
            HybridEncoded::Bitmap(bs, len) => Run::Bitmap(bs.to_vec(), len),
            HybridEncoded::Repeated(set, len) => Run::Repeated(set, len),
        }))
        .collect()
}

/// Relies on parquet2's `HybridRleDecoder` (`try_new`, then its values): the
/// decoded values, in order. It unpacks up to 32 bits per value; on a stream
/// that `stream_safe` admits for `num_bits`, its run reader does not panic,
/// and the recursion of `next` over empty runs stays shallow.
#[verifier::external_body]
pub(crate) fn decode_levels(data: &[u8], num_bits: u32, num_values: usize) -> (r: Result<
    Vec<u32>,
    parquet2::error::Error,
>)
    requires
        1 <= num_bits <= 16,
        stream_safe(data@, num_bits as nat),
    ensures
        r is Ok <==> hybrid_levels_of(data@, num_bits, num_values) is Some,
        r matches Ok(v) ==> hybrid_levels_of(data@, num_bits, num_values) == Some(v@),
{
    HybridRleDecoder::try_new(data, num_bits, num_values)?.collect()
}

} // verus!
