//! What can go wrong while reading and checking the bank's files.
use vstd::prelude::*;

verus! {

/// Why a run stops. Each one names the text that was at fault.
#[derive(Debug)]
pub enum AccountingError {
    /// The delimited text is malformed.
    CsvSyntax,
    /// A column that records need is not in the header.
    MissingColumn { name: String },
    /// A date is not written month/day/year.
    DateFormat { text: String },
    /// An amount is not a signed decimal, or has a non-zero digit below the
    /// cents, which no number of cents can hold.
    AmountFormat { text: String },
    /// No row of the file is dated on or after the first day of the month.
    BalanceNotFound,
    /// A category is not one of the known categories.
    UnknownCategory { name: String },
}

} // verus!
