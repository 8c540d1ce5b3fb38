use vstd::prelude::*;
use vstd::string::StringExecFns;

verus! {

/// The failure conditions surfaced by this library.
///
/// Decoding raises only `InvalidTransaction`; `InvalidScript` is reserved
/// for script-level validation; `InvalidAmount` and `ParseError` are raised
/// by the command parser alone.
#[derive(Debug, Clone)]
pub enum BitcoinError {
    /// A structural or length violation found while decoding.
    InvalidTransaction,
    /// Reserved for script-level validation; never raised by the codec.
    InvalidScript,
    /// A numeric command argument that is not a valid amount.
    InvalidAmount,
    /// A generic textual failure from the command parser.
    ParseError(String),
}

impl BitcoinError {
    /// A human-readable description of the failure.
    pub fn message(&self) -> (r: String)
        ensures
            r@ == match *self {
                BitcoinError::InvalidTransaction => "Invalid transaction format"@,
                BitcoinError::InvalidScript => "Invalid script format"@,
                BitcoinError::InvalidAmount => "Invalid amount"@,
                BitcoinError::ParseError(m) => "Parse error: "@ + m@,
            },
    {
        match self {
            BitcoinError::InvalidTransaction => "Invalid transaction format".to_owned(),
            BitcoinError::InvalidScript => "Invalid script format".to_owned(),
            BitcoinError::InvalidAmount => "Invalid amount".to_owned(),
            BitcoinError::ParseError(m) => "Parse error: ".to_owned().concat(m.as_str()),
        }
    }
}

} // verus!
