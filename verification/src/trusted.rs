//! The calls this library makes into other crates. Each contract here is
//! believed, not proved: it says what the called function's source shows.
use vstd::prelude::*;
use rand::RngCore;

verus! {

/// The first `byte_count` bytes of BLAKE3's extendable output for the input
/// `seed`.
pub uninterp spec fn blake3_xof(seed: Seq<u8>, byte_count: nat) -> Seq<u8>;

/// Hashes `seed` with `blake3::Hasher` and fills all of `out` from the
/// extendable output, read from its start (`Hasher::new`, `update`,
/// `finalize_xof`, `OutputReader::fill`). The output depends on `seed` and on
/// the number of bytes asked for, and `fill` writes the whole buffer.
#[verifier::external_body]
pub(crate) fn fill_xof(seed: &[u8], out: &mut Vec<u8>)
    ensures
        final(out)@ == blake3_xof(seed@, old(out)@.len()),
        final(out)@.len() == old(out)@.len(),
{
    blake3::Hasher::new().update(seed).finalize_xof().fill(out.as_mut_slice());
}

/// Overwrites all of `out` with bytes from the operating system's random
/// source (`rand::rngs::OsRng`, `RngCore::fill_bytes`). Nothing is known of
/// the bytes; the length stays. `fill_bytes` panics if the operating system
/// fails to deliver.
#[verifier::external_body]
pub(crate) fn fill_random(out: &mut Vec<u8>)
    ensures
        final(out)@.len() == old(out)@.len(),
{
    rand::rngs::OsRng.fill_bytes(out.as_mut_slice());
}

/// The cells of a Bloom filter of `bin_count` cells that `element` hashes
/// to, one for each of `hash_count` hash functions, in the order of the hash
/// functions. All parties of a run must agree on it, so all must have a
/// `usize` of one width.
pub uninterp spec fn bloom_indices(element: usize, bin_count: usize, hash_count: usize) -> Seq<
    usize,
>;

/// Collects `sets_multisets::bloom_filters::bloom_filter_indices`: for each
/// seed from zero up to `hash_count`, the hash of `element` under that seed,
/// reduced modulo `bin_count`. The hash is a fixed function of element and
/// seed, so there are `hash_count` indices, each below `bin_count`. With no
/// bins the reduction would divide by zero.
#[verifier::external_body]
pub(crate) fn bloom_filter_indices(element: usize, bin_count: usize, hash_count: usize) -> (result:
    Vec<usize>)
    requires
        bin_count > 0,
    ensures
        result@ == bloom_indices(element, bin_count, hash_count),
        result@.len() == hash_count,
        forall|k: int| 0 <= k < hash_count ==> (#[trigger] result@[k]) < bin_count,
{
    sets_multisets::bloom_filters::bloom_filter_indices(&element, bin_count, hash_count).collect()
}

/// What `bincode` makes of a decoding or encoding failure.
#[verifier::external_type_specification]
#[verifier::external_body]
pub struct ExBincodeErrorKind(bincode::ErrorKind);

/// The bytes that `bincode::serialize` encodes a list of index lists as, if
/// it encodes it.
pub uninterp spec fn patterns_encoding(patterns: Seq<Seq<usize>>) -> Option<Seq<u8>>;

/// The list of index lists that `bincode::deserialize` decodes `bytes` as, if
/// it decodes them.
pub uninterp spec fn patterns_decoding(bytes: Seq<u8>) -> Option<Seq<Seq<usize>>>;

/// The bytes that `bincode::serialize` encodes a list of booleans as, if it
/// encodes it.
pub uninterp spec fn answers_encoding(answers: Seq<bool>) -> Option<Seq<u8>>;

/// The list of booleans that `bincode::deserialize` decodes `bytes` as, if it
/// decodes them.
pub uninterp spec fn answers_decoding(bytes: Seq<u8>) -> Option<Seq<bool>>;

/// Calls `bincode::serialize` on a list of index lists. Whether it succeeds,
/// and with which bytes, depends on the list alone.
#[verifier::external_body]
pub(crate) fn serialize_patterns(patterns: &Vec<Vec<usize>>) -> (result: Result<
    Vec<u8>,
    Box<bincode::ErrorKind>,
>)
    ensures
        match result {
            Ok(bytes) => patterns_encoding(patterns.deep_view()) == Some(bytes@),
            Err(_) => patterns_encoding(patterns.deep_view()) is None,
        },
{
    bincode::serialize(patterns)
}

/// Calls `bincode::deserialize` for a list of index lists. Whether it
/// succeeds, and with which list, depends on the bytes alone.
#[verifier::external_body]
pub(crate) fn deserialize_patterns(bytes: &[u8]) -> (result: Result<
    Vec<Vec<usize>>,
    Box<bincode::ErrorKind>,
>)
    ensures
        match result {
            Ok(patterns) => patterns_decoding(bytes@) == Some(patterns.deep_view()),
            Err(_) => patterns_decoding(bytes@) is None,
        },
{
    bincode::deserialize(bytes)
}

/// Calls `bincode::serialize` on a list of booleans. Whether it succeeds,
/// and with which bytes, depends on the list alone.
#[verifier::external_body]
pub(crate) fn serialize_answers(answers: &Vec<bool>) -> (result: Result<
    Vec<u8>,
    Box<bincode::ErrorKind>,
>)
    ensures
        match result {
            Ok(bytes) => answers_encoding(answers@) == Some(bytes@),
            Err(_) => answers_encoding(answers@) is None,
        },
{
    bincode::serialize(answers)
}

/// Calls `bincode::deserialize` for a list of booleans. Whether it succeeds,
/// and with which list, depends on the bytes alone.
#[verifier::external_body]
pub(crate) fn deserialize_answers(bytes: &[u8]) -> (result: Result<
    Vec<bool>,
    Box<bincode::ErrorKind>,
>)
    ensures
        match result {
            Ok(answers) => answers_decoding(bytes@) == Some(answers@),
            Err(_) => answers_decoding(bytes@) is None,
        },
{
    bincode::deserialize(bytes)
}

} // verus!
