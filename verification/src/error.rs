//! The errors of the library.

use vstd::prelude::*;
use vstd::string::StringExecFns;

verus! {

/// The ways in which computing or reading a digest can fail.
#[derive(Clone, Copy, Debug, PartialEq, Eq, Structural)]
pub enum TxLshError {
    /// The input is longer than the length table covers (about 4 GiB).
    DataLenOverflow,
    /// The length of a digest string matches no configuration.
    InvalidHashValue,
    /// Fewer than 50 bytes were consumed.
    MinSizeNotReached,
    /// A two-character group of a digest string is not hexadecimal.
    ParseHexFailed,
    /// The third quartile of the histogram is zero: the input is too uniform.
    NoValidHash,
}

impl TxLshError {
    /// The text of [`TxLshError::message`], as a sequence of characters.
    pub open spec fn spec_message(self) -> Seq<char> {
        match self {
            TxLshError::DataLenOverflow => "Input file is too big. Maximal file size is 4GB."@,
            TxLshError::InvalidHashValue => "Can't parse hash string"@,
            TxLshError::MinSizeNotReached => "TLSH requires an input of at least 50 bytes."@,
            TxLshError::ParseHexFailed => "Can't convert hex string to integer"@,
            TxLshError::NoValidHash => "No valid hash could be computed. See https://github.com/trendmicro/tlsh/issues/79"@,
        }
    }

    /// A sentence that describes the error.
    pub fn message(&self) -> (text: String)
        ensures
            text@ == self.spec_message(),
    {
        match self {
            TxLshError::DataLenOverflow => String::from_str(
                "Input file is too big. Maximal file size is 4GB.",
            ),
            TxLshError::InvalidHashValue => String::from_str("Can't parse hash string"),
            TxLshError::MinSizeNotReached => String::from_str(
                "TLSH requires an input of at least 50 bytes.",
            ),
            TxLshError::ParseHexFailed => String::from_str("Can't convert hex string to integer"),
            TxLshError::NoValidHash => String::from_str(
                "No valid hash could be computed. See https://github.com/trendmicro/tlsh/issues/79",
            ),
        }
    }
}

} // verus!
