//! One entry of a schema: an option or a flag with its aliases.
use crate::error::{Error, ErrorKind, Fault};
use crate::strings::{count_prefix, prefix_count, text_opt, texts, to_chars};
use crate::text::Text;
use vstd::prelude::*;

verus! {

/// The definition of one option or flag.
#[derive(Clone, Debug)]
pub struct OptionDef {
    /// The aliases of the option, such as `-f` and `--filename`.
    pub aliases: Vec<String>,
    /// The name of the option's value; a flag has none.
    pub value_name: Option<String>,
    /// The value used where none is supplied; an option without it is
    /// required.
    pub default_value: Option<String>,
    /// What the option is for.
    pub description: String,
    /// The values that the option accepts; empty where any value will do.
    pub valid_values: Vec<String>,
}

/// The model of an [`OptionDef`].
pub struct OptionSpec {
    pub aliases: Seq<Seq<char>>,
    pub value_name: Option<Seq<char>>,
    pub default_value: Option<Seq<char>>,
    pub description: Seq<char>,
    pub valid_values: Seq<Seq<char>>,
}

impl View for OptionDef {
    type V = OptionSpec;

    open spec fn view(&self) -> OptionSpec {
        OptionSpec {
            aliases: texts(self.aliases@),
            value_name: text_opt(self.value_name),
            default_value: text_opt(self.default_value),
            description: self.description@,
            valid_values: texts(self.valid_values@),
        }
    }
}

/// What is wrong with the shape of an alias, if anything. A long alias has
/// exactly two dashes and at least two characters behind them; a short one
/// has one dash and one character behind it.
pub open spec fn alias_fault(alias: Seq<char>) -> Option<ErrorKind> {
    let dashes = prefix_count(alias, "-"@);
    let name_len = alias.len() - dashes;
    if dashes >= 2 {
        if name_len < 2 || dashes > 2 {
            Some(ErrorKind::InvalidLongName)
        } else {
            None
        }
    } else if dashes == 1 {
        if name_len != 1 {
            Some(ErrorKind::InvalidShortName)
        } else {
            None
        }
    } else {
        Some(ErrorKind::InvalidName)
    }
}

/// The error for an alias whose shape is wrong in the way `kind` says.
pub open spec fn shape_fault(text: Text, kind: ErrorKind, alias: Seq<char>) -> Fault {
    Fault {
        kind,
        message: match kind {
            ErrorKind::InvalidLongName => text.option_invalid_long_name_text(alias),
            ErrorKind::InvalidShortName => text.option_invalid_short_name_text(alias),
            _ => text.option_invalid_name_text(alias),
        },
    }
}

/// The error for the first alias of the list whose shape is wrong.
pub open spec fn first_shape_fault(text: Text, aliases: Seq<Seq<char>>) -> Option<Fault>
    decreases aliases.len(),
{
    if aliases.len() == 0 {
        None
    } else {
        match alias_fault(aliases[0]) {
            Some(kind) => Some(shape_fault(text, kind, aliases[0])),
            None => first_shape_fault(text, aliases.skip(1)),
        }
    }
}

/// What is wrong with the shape of an alias, if anything.
pub fn check_alias(alias: &str) -> (r: Option<ErrorKind>)
    ensures
        r == alias_fault(alias@),
{
    let chars = to_chars(alias);
    let dash = to_chars("-");
    let dashes: usize = count_prefix(&chars, &dash);
    let name_len: usize = chars.len() - dashes;
    if dashes >= 2 {
        if name_len < 2 || dashes > 2 {
            Some(ErrorKind::InvalidLongName)
        } else {
            None
        }
    } else if dashes == 1 {
        if name_len != 1 {
            Some(ErrorKind::InvalidShortName)
        } else {
            None
        }
    } else {
        Some(ErrorKind::InvalidName)
    }
}

impl OptionDef {
    /// Makes a definition from its parts, once the aliases are found well
    /// formed.
    pub fn new(
        text: &Text,
        aliases: Vec<String>,
        value_name: Option<String>,
        default_value: Option<String>,
        description: String,
        valid_values: Vec<String>,
    ) -> (r: Result<OptionDef, Error>)
        ensures
            match first_shape_fault(*text, texts(aliases@)) {
                Some(fault) => r is Err && r->Err_0@ == fault,
                None => r is Ok && r->Ok_0@ == (OptionSpec {
                    aliases: texts(aliases@),
                    value_name: text_opt(value_name),
                    default_value: text_opt(default_value),
                    description: description@,
                    valid_values: texts(valid_values@),
                }) && forall|k: int|
                    0 <= k < aliases@.len() ==> alias_fault(#[trigger] texts(aliases@)[k]) is None,
            },
    {
        match Self::validate_aliases(text, &aliases) {
            Err(e) => Err(e),
            Ok(()) => Ok(OptionDef { aliases, value_name, default_value, description, valid_values }),
        }
    }

    /// Looks for the first alias whose shape is wrong.
    pub fn validate_aliases(text: &Text, aliases: &Vec<String>) -> (r: Result<(), Error>)
        ensures
            match first_shape_fault(*text, texts(aliases@)) {
                Some(fault) => r is Err && r->Err_0@ == fault,
                None => r is Ok && forall|k: int|
                    0 <= k < aliases@.len() ==> alias_fault(#[trigger] texts(aliases@)[k]) is None,
            },
    {
        let mut i: usize = 0;
        assert(texts(aliases@).skip(0) =~= texts(aliases@));
        while i < aliases.len()
            invariant
                i <= aliases@.len(),
                first_shape_fault(*text, texts(aliases@)) == first_shape_fault(
                    *text,
                    texts(aliases@).skip(i as int),
                ),
                forall|k: int| 0 <= k < i ==> alias_fault(#[trigger] texts(aliases@)[k]) is None,
            decreases aliases@.len() - i,
        {
            let alias = aliases[i].as_str();
            proof {
                assert(texts(aliases@).skip(i as int)[0] == alias@);
                assert(texts(aliases@).skip(i as int).skip(1) =~= texts(aliases@).skip(i + 1));
            }
            match check_alias(alias) {
                Some(kind) => {
                    let message = match kind {
                        ErrorKind::InvalidLongName => text.option_invalid_long_name(alias),
                        ErrorKind::InvalidShortName => text.option_invalid_short_name(alias),
                        _ => text.option_invalid_name(alias),
                    };
                    return Err(Error { kind, message });
                },
                None => {},
            }
            i += 1;
        }
        Ok(())
    }
}

} // verus!
