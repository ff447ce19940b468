//! The model of a parse: one pass over the tokens, then defaults and
//! validation.
use crate::error::{ErrorKind, Fault};
use crate::option_def::OptionSpec;
use crate::schema::{find_option, usage_fault, Schema};
use crate::strings::{decimal, joined, prefix_count, unquoted};
use crate::text::Text;
use vstd::prelude::*;

verus! {

/// Recorded values: pairs of a key and its value, in the order of
/// recording.
pub type Entries = Seq<(Seq<char>, Seq<char>)>;

/// The model of a parsed command line.
pub struct Resolved {
    /// The catalog that words the errors of a lookup.
    pub text: Text,
    /// The first token, or the empty text where there was no token.
    pub program_name: Seq<char>,
    /// Every alias of every registered entry with its value.
    pub options: Entries,
    /// Every declared argument name with its value, in declared order.
    pub arguments: Entries,
}

/// The model of the outcome of a parse.
pub enum Outcome {
    /// The command line was resolved.
    Success(Resolved),
    /// Help was asked for: the usage text.
    HelpRequested(Seq<char>),
    /// The tokens do not fit the schema.
    Failure(Fault),
}

/// Where the pass over the tokens ended.
pub enum Scan {
    /// At a help token.
    Help,
    /// At a token that does not fit the schema.
    Failed(Fault),
    /// Behind the last token, with the recorded options and the positional
    /// values in the order in which they came.
    Done(Entries, Seq<Seq<char>>),
}

/// The value recorded last for `key`, if any.
pub open spec fn lookup(entries: Entries, key: Seq<char>) -> Option<Seq<char>>
    decreases entries.len(),
{
    if entries.len() == 0 {
        None
    } else if entries.last().0 == key {
        Some(entries.last().1)
    } else {
        lookup(entries.drop_last(), key)
    }
}

/// The entries with `value` recorded for each of the aliases, or the first
/// alias that has a value already.
pub open spec fn record_all(entries: Entries, aliases: Seq<Seq<char>>, value: Seq<char>) -> Result<
    Entries,
    Seq<char>,
>
    decreases aliases.len(),
{
    if aliases.len() == 0 {
        Ok(entries)
    } else if lookup(entries, aliases[0]) is Some {
        Err(aliases[0])
    } else {
        record_all(entries.push((aliases[0], value)), aliases.skip(1), value)
    }
}

/// The entries with `value` recorded for every alias of an entry of the
/// schema, or the error that names the alias given before.
pub open spec fn record_option(
    text: Text,
    usage: Seq<char>,
    entries: Entries,
    d: OptionSpec,
    value: Seq<char>,
) -> Result<Entries, Fault> {
    match record_all(entries, d.aliases, value) {
        Ok(e) => Ok(e),
        Err(alias) => Err(
            usage_fault(
                ErrorKind::OptionMultipleFound,
                text.option_multiple_found_text(alias),
                usage,
            ),
        ),
    }
}

/// The alias of the short flag `c`.
pub open spec fn flag_alias(c: char) -> Seq<char> {
    "-"@.push(c)
}

/// A cluster of flags, character by character from the left: each must be
/// a registered flag that was not given before, and is recorded as `"true"`
/// under every alias of its entry.
pub open spec fn record_cluster(schema: Schema, usage: Seq<char>, entries: Entries, chars: Seq<char>)
    -> Result<Entries, Fault>
    decreases chars.len(),
{
    if chars.len() == 0 {
        Ok(entries)
    } else {
        let flag = flag_alias(chars[0]);
        match find_option(schema.option_defs, flag) {
            None => Err(
                usage_fault(
                    ErrorKind::FlagNotDefined,
                    schema.text.flag_not_defined_text(flag),
                    usage,
                ),
            ),
            Some(d) => if schema.option_defs[d].value_name is Some {
                Err(
                    usage_fault(
                        ErrorKind::OptionInvalidFlag,
                        schema.text.option_invalid_flag_text(flag),
                        usage,
                    ),
                )
            } else if lookup(entries, flag) is Some {
                Err(
                    usage_fault(
                        ErrorKind::OptionMultipleFlags,
                        schema.text.option_multiple_flags_text(flag),
                        usage,
                    ),
                )
            } else {
                match record_option(schema.text, usage, entries, schema.option_defs[d], "true"@) {
                    Err(fault) => Err(fault),
                    Ok(e) => record_cluster(schema, usage, e, chars.skip(1)),
                }
            },
        }
    }
}

/// Whether a token that is no alias is a cluster of flags: one dash, then
/// two characters or more.
pub open spec fn is_cluster(token: Seq<char>) -> bool {
    token.len() > 2 && prefix_count(token, "-"@) == 1
}

/// What a token with a leading dash does: the new entries, and whether the
/// token behind it was taken as its value.
pub open spec fn resolve_option(
    schema: Schema,
    usage: Seq<char>,
    entries: Entries,
    token: Seq<char>,
    next: Option<Seq<char>>,
) -> Result<(Entries, bool), Fault> {
    match find_option(schema.option_defs, token) {
        Some(d) => {
            let def = schema.option_defs[d];
            if def.value_name is None {
                match record_option(schema.text, usage, entries, def, "true"@) {
                    Ok(e) => Ok((e, false)),
                    Err(fault) => Err(fault),
                }
            } else {
                match next {
                    None => Err(
                        usage_fault(
                            ErrorKind::OptionValueRequired,
                            schema.text.option_value_required_text(token),
                            usage,
                        ),
                    ),
                    Some(value) => match record_option(schema.text, usage, entries, def, value) {
                        Ok(e) => Ok((e, true)),
                        Err(fault) => Err(fault),
                    },
                }
            }
        },
        None => if is_cluster(token) {
            match record_cluster(schema, usage, entries, token.skip(1)) {
                Ok(e) => Ok((e, false)),
                Err(fault) => Err(fault),
            }
        } else {
            Err(
                usage_fault(
                    ErrorKind::OptionNotDefined,
                    schema.text.option_not_defined_text(token),
                    usage,
                ),
            )
        },
    }
}

/// Whether a token asks for help.
pub open spec fn is_help(token: Seq<char>) -> bool {
    token == "-h"@ || token == "--help"@
}

/// Whether a token starts with a dash.
pub open spec fn is_dashed(token: Seq<char>) -> bool {
    token.len() > 0 && token[0] == '-'
}

/// The token behind the first of `rest`, if there is one.
pub open spec fn lookahead(rest: Seq<Seq<char>>) -> Option<Seq<char>> {
    if rest.len() > 1 {
        Some(rest[1])
    } else {
        None
    }
}

/// The pass over the tokens that are left, from the state reached so far:
/// `skip` says that the first of them was taken as a value.
pub open spec fn scan(
    schema: Schema,
    usage: Seq<char>,
    rest: Seq<Seq<char>>,
    skip: bool,
    entries: Entries,
    positionals: Seq<Seq<char>>,
) -> Scan
    decreases rest.len(),
{
    if rest.len() == 0 {
        Scan::Done(entries, positionals)
    } else if is_help(rest[0]) {
        Scan::Help
    } else if skip {
        scan(schema, usage, rest.skip(1), false, entries, positionals)
    } else if is_dashed(rest[0]) {
        match resolve_option(schema, usage, entries, rest[0], lookahead(rest)) {
            Err(fault) => Scan::Failed(fault),
            Ok((e, taken)) => scan(schema, usage, rest.skip(1), taken, e, positionals),
        }
    } else {
        scan(schema, usage, rest.skip(1), false, entries, positionals.push(unquoted(rest[0])))
    }
}

/// The error for a value that is not among the valid values of `d`.
pub open spec fn invalid_value_fault(text: Text, usage: Seq<char>, d: OptionSpec, alias: Seq<char>)
    -> Fault {
    usage_fault(
        ErrorKind::OptionValueInvalid,
        text.option_value_invalid_text(alias, joined(d.valid_values, ","@)),
        usage,
    )
}

/// Defaults and validation for one alias of `d`: an alias without a value
/// gets the default, and fails where there is none; the value must then be
/// among the valid values, where the entry names any.
pub open spec fn backfill_alias(
    text: Text,
    usage: Seq<char>,
    d: OptionSpec,
    entries: Entries,
    alias: Seq<char>,
) -> Result<Entries, Fault> {
    match lookup(entries, alias) {
        Some(value) => if d.valid_values.len() > 0 && !d.valid_values.contains(value) {
            Err(invalid_value_fault(text, usage, d, alias))
        } else {
            Ok(entries)
        },
        None => match d.default_value {
            None => Err(
                usage_fault(ErrorKind::OptionRequired, text.option_required_text(alias), usage),
            ),
            Some(value) => if d.valid_values.len() > 0 && !d.valid_values.contains(value) {
                Err(invalid_value_fault(text, usage, d, alias))
            } else {
                Ok(entries.push((alias, value)))
            },
        },
    }
}

/// Defaults and validation for the aliases of `d` from `from` on.
pub open spec fn backfill_entry(
    text: Text,
    usage: Seq<char>,
    d: OptionSpec,
    entries: Entries,
    from: int,
) -> Result<Entries, Fault>
    decreases d.aliases.len() - from,
{
    if from < 0 || from >= d.aliases.len() {
        Ok(entries)
    } else {
        match backfill_alias(text, usage, d, entries, d.aliases[from]) {
            Err(fault) => Err(fault),
            Ok(e) => backfill_entry(text, usage, d, e, from + 1),
        }
    }
}

/// Defaults and validation for every alias of the entries from `from` on,
/// in the order of registration.
pub open spec fn backfill(schema: Schema, usage: Seq<char>, entries: Entries, from: int) -> Result<
    Entries,
    Fault,
>
    decreases schema.option_defs.len() - from,
{
    if from < 0 || from >= schema.option_defs.len() {
        Ok(entries)
    } else {
        match backfill_entry(schema.text, usage, schema.option_defs[from], entries, 0) {
            Err(fault) => Err(fault),
            Ok(e) => backfill(schema, usage, e, from + 1),
        }
    }
}

/// The declared names paired with the positional values, in order.
pub open spec fn zipped(names: Seq<Seq<char>>, values: Seq<Seq<char>>) -> Entries
    recommends
        names.len() == values.len(),
{
    Seq::new(names.len(), |i: int| (names[i], values[i]))
}

/// The error for a number of positional tokens that is not the declared
/// one.
pub open spec fn count_fault(text: Text, usage: Seq<char>, defined: nat, found: nat) -> Fault {
    usage_fault(
        ErrorKind::ArgumentCount,
        text.argument_defined_ne_found_text(decimal(defined), decimal(found)),
        usage,
    )
}

/// The program name of a token sequence.
pub open spec fn program_of(tokens: Seq<Seq<char>>) -> Seq<char> {
    if tokens.len() > 0 {
        tokens[0]
    } else {
        Seq::empty()
    }
}

/// The tokens behind the program name.
pub open spec fn arguments_of(tokens: Seq<Seq<char>>) -> Seq<Seq<char>> {
    if tokens.len() > 0 {
        tokens.skip(1)
    } else {
        Seq::empty()
    }
}

/// What the part of a parse that follows the pass over the tokens makes
/// of where the pass ended.
pub open spec fn finish(schema: Schema, program_name: Seq<char>, usage: Seq<char>, scanned: Scan)
    -> Outcome {
    match scanned {
        Scan::Help => Outcome::HelpRequested(usage),
        Scan::Failed(fault) => Outcome::Failure(fault),
        Scan::Done(entries, positionals) => if positionals.len() != schema.argument_names.len() {
            Outcome::Failure(
                count_fault(schema.text, usage, schema.argument_names.len(), positionals.len()),
            )
        } else {
            match backfill(schema, usage, entries, 0) {
                Err(fault) => Outcome::Failure(fault),
                Ok(options) => Outcome::Success(
                    Resolved {
                        text: schema.text,
                        program_name,
                        options,
                        arguments: zipped(schema.argument_names, positionals),
                    },
                ),
            }
        },
    }
}

/// The outcome of parsing `tokens` against `schema`.
pub open spec fn parse(schema: Schema, tokens: Seq<Seq<char>>) -> Outcome {
    let program_name = program_of(tokens);
    let usage = schema.usage(program_name);
    finish(
        schema,
        program_name,
        usage,
        scan(schema, usage, arguments_of(tokens), false, Seq::empty(), Seq::empty()),
    )
}

} // verus!
