//! Conversion of wire-encoded blocks into their client-facing form.
//!
//! Raw block bytes coming out of chain storage are decoded into a typed
//! proto block, its header is turned into a structured block header whose
//! consensus proof is present exactly when the height calls for one, and the
//! transaction list is projected into either full transaction objects or
//! plain hash references, as the caller requests.

pub mod codec;
pub mod convert;
pub mod laws;
pub mod proto;
pub mod rpc;
pub mod types;

pub use codec::{decode_block, encode_block};
pub use convert::{project_transactions, ProofConverter, RawProofConverter};
pub use proto::{ProtoBlock, ProtoBody, ProtoHeader, ProtoTransaction};
pub use rpc::{Block, BlockBody, BlockHeader, BlockTransaction, FullTransaction, RpcBlock};
pub use types::{Address, DecodeError, Error, Hash256, Proof, U256};
