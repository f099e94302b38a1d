//! Approximate multi-party private set intersection, delegated to a
//! semi-honest server.
//!
//! Every party but the server encodes its set as a Bloom filter and sends the
//! server a share vector: a zero share built from seeds it holds pairwise with
//! its peers, randomised in every cell whose Bloom bit is clear. The server
//! XORs the shares together and tells the querier, for each of the querier's
//! elements, whether the cells that element hashes to cancel to zero.
use vstd::prelude::*;

pub mod approx_mpsi;
pub mod byte_algebra;
pub mod element_set;
pub mod laws;
pub mod roles;
pub mod secret_sharing;
pub mod session;
pub mod trusted;

verus! {

/// Number of bytes in one cell of a share vector. The contracts of this
/// library write the number out.
pub const SHARE_BYTE_COUNT: usize = 5;

} // verus!
