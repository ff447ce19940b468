//! The parsed command line and the outcome of a parse.
use crate::engine::{lookup, Entries, Outcome, Resolved};
use crate::error::{Error, ErrorKind, Fault};
use crate::strings::{decimal, decimal_string, str_eq};
use crate::text::Text;
use vstd::prelude::*;

verus! {

/// The keys and values held by a vector of recorded pairs.
pub open spec fn pairs(v: Seq<(String, String)>) -> Entries {
    Seq::new(v.len(), |i: int| (v[i].0@, v[i].1@))
}

/// Position of the value recorded last for `key`, if any: the last
/// position that holds the key.
pub fn find_value(entries: &Vec<(String, String)>, key: &str) -> (r: Option<usize>)
    ensures
        match r {
            Some(at) => at < entries@.len() && entries@[at as int].0@ == key@ && lookup(
                pairs(entries@),
                key@,
            ) == Some(entries@[at as int].1@) && forall|j: int|
                at < j < entries@.len() ==> (#[trigger] entries@[j]).0@ != key@,
            None => lookup(pairs(entries@), key@) is None && forall|j: int|
                0 <= j < entries@.len() ==> (#[trigger] entries@[j]).0@ != key@,
        },
{
    let mut i: usize = entries.len();
    assert(pairs(entries@).take(i as int) =~= pairs(entries@));
    while i > 0
        invariant
            i <= entries@.len(),
            lookup(pairs(entries@), key@) == lookup(pairs(entries@).take(i as int), key@),
            forall|j: int| i <= j < entries@.len() ==> (#[trigger] entries@[j]).0@ != key@,
        decreases i,
    {
        proof {
            assert(pairs(entries@).take(i as int).drop_last() =~= pairs(entries@).take(i - 1));
            assert(pairs(entries@).take(i as int).last() == pairs(entries@)[i - 1]);
        }
        i -= 1;
        if str_eq(entries[i].0.as_str(), key) {
            return Some(i);
        }
    }
    None
}

/// What a lookup of a value in the type `T` gives, once the value was
/// found and handed to the type's parser: the parsed value, or the error
/// that names the key, the raw value and the type asked for. `target` is
/// the name of that type. The error is that of an option where `kind`
/// says so, else that of an argument.
pub fn converted<T>(
    text: &Text,
    kind: ErrorKind,
    key: &str,
    value: &str,
    target: &str,
    parsed: Option<T>,
) -> (r: Result<T, Error>)
    ensures
        match parsed {
            Some(t) => r == Ok::<T, Error>(t),
            None => r is Err && r->Err_0@ == conversion_fault(
                *text,
                kind,
                key@,
                value@,
                target@,
            ),
        },
{
    match parsed {
        Some(t) => Ok(t),
        None => {
            let message = match kind {
                ErrorKind::OptionCannotConvert => text.option_cannot_convert(key, value, target),
                _ => text.argument_cannot_convert(key, value, target),
            };
            Err(Error { kind, message })
        },
    }
}

/// The error for a value that is no value of the type that `target`
/// names.
pub open spec fn conversion_fault(
    text: Text,
    kind: ErrorKind,
    key: Seq<char>,
    value: Seq<char>,
    target: Seq<char>,
) -> Fault {
    Fault {
        kind,
        message: match kind {
            ErrorKind::OptionCannotConvert => text.option_cannot_convert_text(key, value, target),
            _ => text.argument_cannot_convert_text(key, value, target),
        },
    }
}

/// Parses a value of the type `T` with `str::parse` of the standard
/// library. What comes back is decided by the type's `FromStr`, so nothing
/// is claimed of it.
#[verifier::external_body]
fn parse_value<T: core::str::FromStr>(value: &str) -> (parsed: Option<T>) {
    match value.parse::<T>() {
        Ok(t) => Some(t),
        Err(_) => None,
    }
}

/// A parsed command line.
#[derive(Debug)]
pub struct CommandLine {
    text: Text,
    program_name: String,
    options: Vec<(String, String)>,
    arguments: Vec<(String, String)>,
}

impl View for CommandLine {
    type V = Resolved;

    closed spec fn view(&self) -> Resolved {
        Resolved {
            text: self.text,
            program_name: self.program_name@,
            options: pairs(self.options@),
            arguments: pairs(self.arguments@),
        }
    }
}

impl CommandLine {
    /// Makes a command line of the program name, the resolved options and
    /// the positional arguments.
    pub fn new(
        text: Text,
        program_name: String,
        options: Vec<(String, String)>,
        arguments: Vec<(String, String)>,
    ) -> (r: CommandLine)
        ensures
            r@ == (Resolved {
                text,
                program_name: program_name@,
                options: pairs(options@),
                arguments: pairs(arguments@),
            }),
    {
        CommandLine { text, program_name, options, arguments }
    }

    /// The number of resolved options: one for each alias.
    pub fn options(self) -> (n: usize)
        ensures
            n == self@.options.len(),
    {
        self.options.len()
    }

    /// The number of positional arguments.
    pub fn arguments(&self) -> (n: usize)
        ensures
            n == self@.arguments.len(),
    {
        self.arguments.len()
    }

    /// The program name.
    pub fn program_name(&self) -> (name: &str)
        ensures
            name@ == self@.program_name,
    {
        self.program_name.as_str()
    }

    /// The raw value of the option `name`.
    pub fn option_value(&self, name: &str) -> (r: Result<&str, Error>)
        ensures
            match lookup(self@.options, name@) {
                Some(value) => r is Ok && r->Ok_0@ == value,
                None => r is Err && r->Err_0@ == (Fault {
                    kind: ErrorKind::OptionNotFound,
                    message: self@.text.option_not_found_text(name@),
                }),
            },
    {
        match find_value(&self.options, name) {
            Some(i) => Ok(self.options[i].1.as_str()),
            None => Err(
                Error { kind: ErrorKind::OptionNotFound, message: self.text.option_not_found(name) },
            ),
        }
    }

    /// The raw value of the argument `name`.
    pub fn argument_value(&self, name: &str) -> (r: Result<&str, Error>)
        ensures
            match lookup(self@.arguments, name@) {
                Some(value) => r is Ok && r->Ok_0@ == value,
                None => r is Err && r->Err_0@ == (Fault {
                    kind: ErrorKind::ArgumentInvalidName,
                    message: self@.text.argument_invalid_name_text(name@),
                }),
            },
    {
        match find_value(&self.arguments, name) {
            Some(i) => Ok(self.arguments[i].1.as_str()),
            None => Err(
                Error {
                    kind: ErrorKind::ArgumentInvalidName,
                    message: self.text.argument_invalid_name(name),
                },
            ),
        }
    }

    /// The name and the raw value of the argument at `index`, counted from
    /// zero in the order of declaration.
    pub fn argument_entry(&self, index: usize) -> (r: Result<(&str, &str), Error>)
        ensures
            if index < self@.arguments.len() {
                r is Ok && r->Ok_0.0@ == self@.arguments[index as int].0 && r->Ok_0.1@
                    == self@.arguments[index as int].1
            } else {
                r is Err && r->Err_0@ == (Fault {
                    kind: ErrorKind::ArgumentInvalidIndex,
                    message: self@.text.argument_invalid_index_text(decimal(index as nat)),
                })
            },
    {
        if index < self.arguments.len() {
            Ok((self.arguments[index].0.as_str(), self.arguments[index].1.as_str()))
        } else {
            let numeral = decimal_string(index);
            Err(
                Error {
                    kind: ErrorKind::ArgumentInvalidIndex,
                    message: self.text.argument_invalid_index(numeral.as_str()),
                },
            )
        }
    }

    /// The value of the option `name` in the type `T`, which `target`
    /// names. An unknown alias is an error; a known one gives what the
    /// type's parser makes of the value, or the error that names alias,
    /// value and type.
    pub fn option<T: core::str::FromStr>(&self, name: &str, target: &str) -> (r: Result<T, Error>)
        ensures
            match lookup(self@.options, name@) {
                Some(value) => r is Err ==> r->Err_0@ == conversion_fault(
                    self@.text,
                    ErrorKind::OptionCannotConvert,
                    name@,
                    value,
                    target@,
                ),
                None => r is Err && r->Err_0@ == (Fault {
                    kind: ErrorKind::OptionNotFound,
                    message: self@.text.option_not_found_text(name@),
                }),
            },
    {
        match self.option_value(name) {
            Err(e) => Err(e),
            Ok(value) => converted(
                &self.text,
                ErrorKind::OptionCannotConvert,
                name,
                value,
                target,
                parse_value::<T>(value),
            ),
        }
    }

    /// The value of the argument `name` in the type `T`, which `target`
    /// names. An unknown name is an error; a known one gives what the
    /// type's parser makes of the value, or the error that names argument,
    /// value and type.
    pub fn argument<T: core::str::FromStr>(&self, name: &str, target: &str) -> (r: Result<
        T,
        Error,
    >)
        ensures
            match lookup(self@.arguments, name@) {
                Some(value) => r is Err ==> r->Err_0@ == conversion_fault(
                    self@.text,
                    ErrorKind::ArgumentCannotConvert,
                    name@,
                    value,
                    target@,
                ),
                None => r is Err && r->Err_0@ == (Fault {
                    kind: ErrorKind::ArgumentInvalidName,
                    message: self@.text.argument_invalid_name_text(name@),
                }),
            },
    {
        match self.argument_value(name) {
            Err(e) => Err(e),
            Ok(value) => converted(
                &self.text,
                ErrorKind::ArgumentCannotConvert,
                name,
                value,
                target,
                parse_value::<T>(value),
            ),
        }
    }

    /// The value of the argument at `index` in the type `T`, which
    /// `target` names. A position out of range is an error; one in range
    /// gives what the type's parser makes of the value, or the error that
    /// names argument, value and type.
    pub fn argument_at<T: core::str::FromStr>(&self, index: usize, target: &str) -> (r: Result<
        T,
        Error,
    >)
        ensures
            if index < self@.arguments.len() {
                r is Err ==> r->Err_0@ == conversion_fault(
                    self@.text,
                    ErrorKind::ArgumentCannotConvert,
                    self@.arguments[index as int].0,
                    self@.arguments[index as int].1,
                    target@,
                )
            } else {
                r is Err && r->Err_0@ == (Fault {
                    kind: ErrorKind::ArgumentInvalidIndex,
                    message: self@.text.argument_invalid_index_text(decimal(index as nat)),
                })
            },
    {
        match self.argument_entry(index) {
            Err(e) => Err(e),
            Ok((name, value)) => converted(
                &self.text,
                ErrorKind::ArgumentCannotConvert,
                name,
                value,
                target,
                parse_value::<T>(value),
            ),
        }
    }
}

/// The outcome of a parse.
#[derive(Debug)]
pub enum ParseOutcome {
    /// The command line was resolved.
    Success(CommandLine),
    /// Help was asked for: the usage text.
    HelpRequested(String),
    /// The tokens do not fit the schema.
    Failure(Error),
}

impl View for ParseOutcome {
    type V = Outcome;

    open spec fn view(&self) -> Outcome {
        match self {
            ParseOutcome::Success(cl) => Outcome::Success(cl@),
            ParseOutcome::HelpRequested(usage) => Outcome::HelpRequested(usage@),
            ParseOutcome::Failure(e) => Outcome::Failure(e@),
        }
    }
}

} // verus!
