//! The message catalog: every text that the library shows, by locale.
use crate::strings::str_eq;
use vstd::prelude::*;

verus! {

/// A catalog of messages.
#[derive(Clone, Copy, Debug, PartialEq, Eq, Structural)]
pub enum Text {
    /// English, as written in the United States.
    EnUs,
}

/// The catalog registered under a locale tag, if there is one.
pub open spec fn catalog_of(tag: Seq<char>) -> Option<Text> {
    if tag == "en"@ || tag == "en-US"@ {
        Some(Text::EnUs)
    } else {
        None
    }
}

/// Position of the first `-` in `tag`, or its length where it has none.
pub open spec fn first_dash(tag: Seq<char>) -> int
    decreases tag.len(),
{
    if tag.len() == 0 || tag[0] == '-' {
        0
    } else {
        1 + first_dash(tag.skip(1))
    }
}

/// The language of a locale tag: what stands before its first `-`. A tag
/// without `-` counts as the default language.
pub open spec fn language_of(tag: Seq<char>) -> Seq<char> {
    if first_dash(tag) < tag.len() {
        tag.take(first_dash(tag))
    } else {
        "en"@
    }
}

/// The catalog for a locale: the one registered under the tag itself, else
/// the one under its language, else the one of the default language.
pub open spec fn catalog_for(tag: Seq<char>) -> Text {
    match catalog_of(tag) {
        Some(t) => t,
        None => match catalog_of(language_of(tag)) {
            Some(t) => t,
            None => Text::EnUs,
        },
    }
}

/// Reads the locale of the system or application with
/// `sys_locale::get_locale`. The result depends on the machine and its
/// environment, so nothing is claimed of it.
#[verifier::external_body]
fn system_locale() -> (locale: Option<String>) {
    sys_locale::get_locale()
}

/// The catalog registered under a locale tag, if there is one.
pub fn lookup_catalog(tag: &str) -> (r: Option<Text>)
    ensures
        r == catalog_of(tag@),
{
    if str_eq(tag, "en") || str_eq(tag, "en-US") {
        Some(Text::EnUs)
    } else {
        None
    }
}

/// The language of a locale tag.
pub fn language(tag: &str) -> (r: String)
    ensures
        r@ == language_of(tag@),
{
    let n: usize = tag.unicode_len();
    let mut i: usize = 0;
    assert(tag@.skip(0) =~= tag@);
    while i < n && tag.get_char(i) != '-'
        invariant
            n == tag@.len(),
            i <= n,
            first_dash(tag@) == i + first_dash(tag@.skip(i as int)),
        decreases n - i,
    {
        proof {
            assert(tag@.skip(i as int)[0] == tag@[i as int]);
            assert(tag@.skip(i as int).skip(1) =~= tag@.skip(i + 1));
        }
        i += 1;
    }
    proof {
        if i < n {
            assert(tag@.skip(i as int)[0] == tag@[i as int]);
        }
    }
    if i < n {
        assert(tag@.take(i as int) =~= tag@.subrange(0, i as int));
        String::from_str(tag.substring_char(0, i))
    } else {
        String::from_str("en")
    }
}

/// The catalog of the machine's locale; that of `en-US` where the machine
/// names none. Whatever the locale is, the catalog is the one that the
/// fallback selects for it.
pub fn get_text() -> (text: Text)
    ensures
        exists|tag: Seq<char>| text == catalog_for(tag),
{
    match system_locale() {
        Some(tag) => {
            let text = Text::for_locale(tag.as_str());
            assert(text == catalog_for(tag@));
            text
        },
        None => {
            let text = Text::for_locale("en-US");
            assert(text == catalog_for("en-US"@));
            text
        },
    }
}

impl Text {
    /// The catalog for a locale tag, falling back to the tag's language and
    /// then to the default language.
    pub fn for_locale(tag: &str) -> (text: Text)
        ensures
            text == catalog_for(tag@),
    {
        match lookup_catalog(tag) {
            Some(t) => t,
            None => {
                let lang = language(tag);
                match lookup_catalog(lang.as_str()) {
                    Some(t) => t,
                    None => Text::EnUs,
                }
            },
        }
    }

    /// The message for an alias that is registered twice.
    pub open spec fn option_redefined_text(self, option: Seq<char>) -> Seq<char> {
        match self {
            Text::EnUs => "Option '"@ + option + "' cannot be redefined"@,
        }
    }
    /// The message for an alias that is registered twice.
    pub fn option_redefined(&self, option: &str) -> (s: String)
        ensures
            s@ == self.option_redefined_text(option@),
    {
        match self {
            Text::EnUs => {
                let mut s = String::from_str("Option '");
                s.append(option);
                s.append("' cannot be redefined");
                s
            },
        }
    }

    /// The message for an option whose value is missing.
    pub open spec fn option_value_required_text(self, option: Seq<char>) -> Seq<char> {
        match self {
            Text::EnUs => "A value is required for option '"@ + option + "'"@,
        }
    }
    /// The message for an option whose value is missing.
    pub fn option_value_required(&self, option: &str) -> (s: String)
        ensures
            s@ == self.option_value_required_text(option@),
    {
        match self {
            Text::EnUs => {
                let mut s = String::from_str("A value is required for option '");
                s.append(option);
                s.append("'");
                s
            },
        }
    }

    /// The message for an option that is given twice.
    pub open spec fn option_multiple_found_text(self, option: Seq<char>) -> Seq<char> {
        match self {
            Text::EnUs => "Multiple '"@ + option + "' options or aliases on commandline"@,
        }
    }
    /// The message for an option that is given twice.
    pub fn option_multiple_found(&self, option: &str) -> (s: String)
        ensures
            s@ == self.option_multiple_found_text(option@),
    {
        match self {
            Text::EnUs => {
                let mut s = String::from_str("Multiple '");
                s.append(option);
                s.append("' options or aliases on commandline");
                s
            },
        }
    }

    /// The message for a flag of a cluster that is given twice.
    pub open spec fn option_multiple_flags_text(self, flag: Seq<char>) -> Seq<char> {
        match self {
            Text::EnUs => "Multiple '"@ + flag + "' options or aliases on commandline"@,
        }
    }
    /// The message for a flag of a cluster that is given twice.
    pub fn option_multiple_flags(&self, flag: &str) -> (s: String)
        ensures
            s@ == self.option_multiple_flags_text(flag@),
    {
        match self {
            Text::EnUs => {
                let mut s = String::from_str("Multiple '");
                s.append(flag);
                s.append("' options or aliases on commandline");
                s
            },
        }
    }

    /// The message for a value-taking option inside a flag cluster.
    pub open spec fn option_invalid_flag_text(self, option: Seq<char>) -> Seq<char> {
        match self {
            Text::EnUs => "Option '"@ + option + "' is not a flag"@,
        }
    }
    /// The message for a value-taking option inside a flag cluster.
    pub fn option_invalid_flag(&self, option: &str) -> (s: String)
        ensures
            s@ == self.option_invalid_flag_text(option@),
    {
        match self {
            Text::EnUs => {
                let mut s = String::from_str("Option '");
                s.append(option);
                s.append("' is not a flag");
                s
            },
        }
    }

    /// The message for a token that is no registered alias.
    pub open spec fn option_not_defined_text(self, option: Seq<char>) -> Seq<char> {
        match self {
            Text::EnUs => "Option '"@ + option + "' not defined"@,
        }
    }
    /// The message for a token that is no registered alias.
    pub fn option_not_defined(&self, option: &str) -> (s: String)
        ensures
            s@ == self.option_not_defined_text(option@),
    {
        match self {
            Text::EnUs => {
                let mut s = String::from_str("Option '");
                s.append(option);
                s.append("' not defined");
                s
            },
        }
    }

    /// The message for a character of a cluster that is no registered flag.
    pub open spec fn flag_not_defined_text(self, flag: Seq<char>) -> Seq<char> {
        match self {
            Text::EnUs => "Flag '"@ + flag + "' not defined"@,
        }
    }
    /// The message for a character of a cluster that is no registered flag.
    pub fn flag_not_defined(&self, flag: &str) -> (s: String)
        ensures
            s@ == self.flag_not_defined_text(flag@),
    {
        match self {
            Text::EnUs => {
                let mut s = String::from_str("Flag '");
                s.append(flag);
                s.append("' not defined");
                s
            },
        }
    }

    /// The message for a malformed long alias.
    pub open spec fn option_invalid_long_name_text(self, option: Seq<char>) -> Seq<char> {
        match self {
            Text::EnUs => "Invalid option name '"@ + option + "'. Long option names must start with '--' and be greater than 1 character. e.g. --lo"@,
        }
    }
    /// The message for a malformed long alias.
    pub fn option_invalid_long_name(&self, option: &str) -> (s: String)
        ensures
            s@ == self.option_invalid_long_name_text(option@),
    {
        match self {
            Text::EnUs => {
                let mut s = String::from_str("Invalid option name '");
                s.append(option);
                s.append("'. Long option names must start with '--' and be greater than 1 character. e.g. --lo");
                s
            },
        }
    }

    /// The message for a malformed short alias.
    pub open spec fn option_invalid_short_name_text(self, option: Seq<char>) -> Seq<char> {
        match self {
            Text::EnUs => "Invalid option name '"@ + option + "'. Short option names must start with '-' and be 1 character. e.g. -f"@,
        }
    }
    /// The message for a malformed short alias.
    pub fn option_invalid_short_name(&self, option: &str) -> (s: String)
        ensures
            s@ == self.option_invalid_short_name_text(option@),
    {
        match self {
            Text::EnUs => {
                let mut s = String::from_str("Invalid option name '");
                s.append(option);
                s.append("'. Short option names must start with '-' and be 1 character. e.g. -f");
                s
            },
        }
    }

    /// The message for an alias without a dash.
    pub open spec fn option_invalid_name_text(self, option: Seq<char>) -> Seq<char> {
        match self {
            Text::EnUs => "Invalid option name '"@ + option + "'. Options must start with '-' or '--'"@,
        }
    }
    /// The message for an alias without a dash.
    pub fn option_invalid_name(&self, option: &str) -> (s: String)
        ensures
            s@ == self.option_invalid_name_text(option@),
    {
        match self {
            Text::EnUs => {
                let mut s = String::from_str("Invalid option name '");
                s.append(option);
                s.append("'. Options must start with '-' or '--'");
                s
            },
        }
    }

    /// The message for a required option that is absent.
    pub open spec fn option_required_text(self, option: Seq<char>) -> Seq<char> {
        match self {
            Text::EnUs => "Option '"@ + option + "' is required"@,
        }
    }
    /// The message for a required option that is absent.
    pub fn option_required(&self, option: &str) -> (s: String)
        ensures
            s@ == self.option_required_text(option@),
    {
        match self {
            Text::EnUs => {
                let mut s = String::from_str("Option '");
                s.append(option);
                s.append("' is required");
                s
            },
        }
    }

    /// The message for a lookup of an unknown alias.
    pub open spec fn option_not_found_text(self, option: Seq<char>) -> Seq<char> {
        match self {
            Text::EnUs => "Option '"@ + option + "' not found"@,
        }
    }
    /// The message for a lookup of an unknown alias.
    pub fn option_not_found(&self, option: &str) -> (s: String)
        ensures
            s@ == self.option_not_found_text(option@),
    {
        match self {
            Text::EnUs => {
                let mut s = String::from_str("Option '");
                s.append(option);
                s.append("' not found");
                s
            },
        }
    }

    /// The message for a value outside the valid values, which are given joined by commas.
    pub open spec fn option_value_invalid_text(self, option: Seq<char>, valid_values: Seq<char>) -> Seq<char> {
        match self {
            Text::EnUs => "Option '"@ + option + "' must be one of ["@ + valid_values + "]"@,
        }
    }
    /// The message for a value outside the valid values, which are given joined by commas.
    pub fn option_value_invalid(&self, option: &str, valid_values: &str) -> (s: String)
        ensures
            s@ == self.option_value_invalid_text(option@, valid_values@),
    {
        match self {
            Text::EnUs => {
                let mut s = String::from_str("Option '");
                s.append(option);
                s.append("' must be one of [");
                s.append(valid_values);
                s.append("]");
                s
            },
        }
    }

    /// The message for a wrong number of positional tokens, both counts given as numerals.
    pub open spec fn argument_defined_ne_found_text(self, defined: Seq<char>, found: Seq<char>) -> Seq<char> {
        match self {
            Text::EnUs => "Defined "@ + defined + " arguments, found "@ + found + " arguments"@,
        }
    }
    /// The message for a wrong number of positional tokens, both counts given as numerals.
    pub fn argument_defined_ne_found(&self, defined: &str, found: &str) -> (s: String)
        ensures
            s@ == self.argument_defined_ne_found_text(defined@, found@),
    {
        match self {
            Text::EnUs => {
                let mut s = String::from_str("Defined ");
                s.append(defined);
                s.append(" arguments, found ");
                s.append(found);
                s.append(" arguments");
                s
            },
        }
    }

    /// The message for a lookup of an argument by a position out of range, given as a numeral.
    pub open spec fn argument_invalid_index_text(self, index: Seq<char>) -> Seq<char> {
        match self {
            Text::EnUs => "Argument index '"@ + index + "' is out of bounds"@,
        }
    }
    /// The message for a lookup of an argument by a position out of range, given as a numeral.
    pub fn argument_invalid_index(&self, index: &str) -> (s: String)
        ensures
            s@ == self.argument_invalid_index_text(index@),
    {
        match self {
            Text::EnUs => {
                let mut s = String::from_str("Argument index '");
                s.append(index);
                s.append("' is out of bounds");
                s
            },
        }
    }

    /// The message for a lookup of an unknown argument name.
    pub open spec fn argument_invalid_name_text(self, name: Seq<char>) -> Seq<char> {
        match self {
            Text::EnUs => "Argument '"@ + name + "' not found"@,
        }
    }
    /// The message for a lookup of an unknown argument name.
    pub fn argument_invalid_name(&self, name: &str) -> (s: String)
        ensures
            s@ == self.argument_invalid_name_text(name@),
    {
        match self {
            Text::EnUs => {
                let mut s = String::from_str("Argument '");
                s.append(name);
                s.append("' not found");
                s
            },
        }
    }

    /// The message for an option value that is no value of the type asked
    /// for, which `target` names.
    pub open spec fn option_cannot_convert_text(
        self,
        option: Seq<char>,
        value: Seq<char>,
        target: Seq<char>,
    ) -> Seq<char> {
        match self {
            Text::EnUs => "Cannot convert option '"@ + option + "' from '"@ + value + "' to '"@
                + target + "'"@,
        }
    }
    /// The message for an option value that is no value of the type asked
    /// for, which `target` names.
    pub fn option_cannot_convert(&self, option: &str, value: &str, target: &str) -> (s: String)
        ensures
            s@ == self.option_cannot_convert_text(option@, value@, target@),
    {
        match self {
            Text::EnUs => {
                let mut s = String::from_str("Cannot convert option '");
                s.append(option);
                s.append("' from '");
                s.append(value);
                s.append("' to '");
                s.append(target);
                s.append("'");
                s
            },
        }
    }

    /// The message for an argument value that is no value of the type asked
    /// for, which `target` names.
    pub open spec fn argument_cannot_convert_text(
        self,
        argument: Seq<char>,
        value: Seq<char>,
        target: Seq<char>,
    ) -> Seq<char> {
        match self {
            Text::EnUs => "Cannot convert argument '"@ + argument + "' from '"@ + value + "' to '"@
                + target + "'"@,
        }
    }
    /// The message for an argument value that is no value of the type asked
    /// for, which `target` names.
    pub fn argument_cannot_convert(&self, argument: &str, value: &str, target: &str) -> (s: String)
        ensures
            s@ == self.argument_cannot_convert_text(argument@, value@, target@),
    {
        match self {
            Text::EnUs => {
                let mut s = String::from_str("Cannot convert argument '");
                s.append(argument);
                s.append("' from '");
                s.append(value);
                s.append("' to '");
                s.append(target);
                s.append("'");
                s
            },
        }
    }

    /// The head of the usage text.
    pub open spec fn usage_text(self, program_name: Seq<char>) -> Seq<char> {
        match self {
            Text::EnUs => "Usage: "@ + program_name,
        }
    }
    /// The head of the usage text.
    pub fn usage(&self, program_name: &str) -> (s: String)
        ensures
            s@ == self.usage_text(program_name@),
    {
        match self {
            Text::EnUs => {
                let mut s = String::from_str("Usage: ");
                s.append(program_name);
                s
            },
        }
    }
}

} // verus!
