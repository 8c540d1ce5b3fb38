//! A verified codec for a simplified ledger transaction record.
//!
//! The wire format is a bespoke, fixed-width-length-prefixed binary layout:
//! every multi-byte integer is little-endian, and every variable-length
//! script is preceded by a 4-byte length prefix.  Encoding is total over
//! well-formed records; decoding validates every length before indexing and
//! reports exactly how many bytes it consumed.

mod cli;
mod error;
pub mod laws;
mod outpoint;
mod point;
mod transaction;
mod txinput;
mod txoutput;
pub mod wire;

pub use crate::cli::parse_cli_args;
pub use crate::cli::parse_u64_decimal;
pub use crate::cli::CliCommand;
pub use crate::error::BitcoinError;
pub use crate::outpoint::OutPoint;
pub use crate::point::Point;
pub use crate::transaction::BitcoinSerialize;
pub use crate::transaction::LegacyTransaction;
pub use crate::transaction::LegacyTransactionBuilder;
pub use crate::txinput::TxInput;
pub use crate::txoutput::TxOutput;
pub use crate::wire::OutPointModel;
pub use crate::wire::TransactionModel;
pub use crate::wire::TxInputModel;
pub use crate::wire::TxOutputModel;
