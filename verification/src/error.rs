//! The errors of the library and the outcomes of a parse.
use vstd::prelude::*;

verus! {

/// What went wrong.
#[derive(Clone, Copy, Debug, PartialEq, Eq, Structural)]
pub enum ErrorKind {
    /// A long alias with fewer than two characters behind `--`, or with
    /// more than two dashes.
    InvalidLongName,
    /// A short alias without exactly one character behind `-`.
    InvalidShortName,
    /// An alias that does not start with a dash.
    InvalidName,
    /// An alias that is registered already.
    OptionRedefined,
    /// A token with a dash that is no registered alias.
    OptionNotDefined,
    /// An option that takes a value stands at the end of the tokens.
    OptionValueRequired,
    /// An option or one of its aliases is given twice.
    OptionMultipleFound,
    /// A character of a flag cluster is no registered flag.
    FlagNotDefined,
    /// A character of a flag cluster names an option that takes a value.
    OptionInvalidFlag,
    /// A flag of a cluster was given before.
    OptionMultipleFlags,
    /// The number of positional tokens is not that of the declared names.
    ArgumentCount,
    /// An option without default is absent.
    OptionRequired,
    /// A value is not one of the option's valid values.
    OptionValueInvalid,
    /// A lookup of an alias that the command line does not hold.
    OptionNotFound,
    /// A lookup of an argument name that the command line does not hold.
    ArgumentInvalidName,
    /// A lookup of an argument by a position that is out of range.
    ArgumentInvalidIndex,
    /// The value of an option is no value of the requested type.
    OptionCannotConvert,
    /// The value of an argument is no value of the requested type.
    ArgumentCannotConvert,
}

/// An error: its kind and the text to show.
#[derive(Clone, Debug)]
pub struct Error {
    pub kind: ErrorKind,
    pub message: String,
}

/// The model of an [`Error`].
pub struct Fault {
    pub kind: ErrorKind,
    pub message: Seq<char>,
}

impl View for Error {
    type V = Fault;

    open spec fn view(&self) -> Fault {
        Fault { kind: self.kind, message: self.message@ }
    }
}

} // verus!
