//! Diagnostics: the non-fatal warnings a run accumulates and the fatal
//! errors that abort it.
use vstd::prelude::*;

verus! {

/// A non-fatal condition, logged but never changing the result beyond the
/// documented merge behavior.
#[derive(Clone, Copy, Debug, PartialEq, Eq, Structural)]
pub enum Warning {
    /// A flag character the category table does not know; the flag is skipped.
    UnknownFlag(u8),
    /// Two unit records with one name but differing category sets; the sets
    /// are unioned.
    DuplicateUnit,
}

/// A fatal condition: the run aborts with a single diagnostic.
#[derive(Debug)]
pub enum Error {
    /// The rules source could not be tokenized.
    ReadRules(String),
    /// A reference inside a unit name could not be resolved.
    BadUnitName(Vec<u8>),
    /// A reference inside a flag string could not be resolved.
    BadUnitMask(Vec<u8>),
    /// The balance source could not be tokenized.
    ReadBalance(String),
    /// An entry attribute value could not be unescaped; carries the raw value.
    BadAttrValue(Vec<u8>),
    /// An entry record without a name.
    MissingEntryName,
    /// An entry attribute that is not a number within bounds; carries the
    /// attribute key and the offending value.
    BadNumber(Vec<u8>, Vec<u8>),
}

/// The mathematical shape of an `Error`.
pub enum ErrorView {
    ReadRules(Seq<char>),
    BadUnitName(Seq<u8>),
    BadUnitMask(Seq<u8>),
    ReadBalance(Seq<char>),
    BadAttrValue(Seq<u8>),
    MissingEntryName,
    BadNumber(Seq<u8>, Seq<u8>),
}

impl View for Error {
    type V = ErrorView;

    open spec fn view(&self) -> ErrorView {
        match self {
            Error::ReadRules(s) => ErrorView::ReadRules(s@),
            Error::BadUnitName(n) => ErrorView::BadUnitName(n@),
            Error::BadUnitMask(n) => ErrorView::BadUnitMask(n@),
            Error::ReadBalance(s) => ErrorView::ReadBalance(s@),
            Error::BadAttrValue(v) => ErrorView::BadAttrValue(v@),
            Error::MissingEntryName => ErrorView::MissingEntryName,
            Error::BadNumber(k, v) => ErrorView::BadNumber(k@, v@),
        }
    }
}

} // verus!
