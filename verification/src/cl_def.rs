//! The command-line definition: the schema builder and the parser.
use crate::command_line::{find_value, pairs, CommandLine, ParseOutcome};
use crate::engine;
use crate::error::{Error, ErrorKind};
use crate::option_def::{alias_fault, first_shape_fault, OptionDef, OptionSpec};
use crate::schema::{
    find_from, find_option, first_redefined, help_label, help_lines, items_of, label_width,
    lemma_initial_wf, lemma_registered_wf, new_entry, usage_fault, Schema, Slot,
};
use crate::strings::{
    contains_text, contains_within, count_prefix, decimal_string, join, push_char,
    slice_text_opt, slice_texts, sort_by_key, str_eq, texts, to_chars, to_string_opt,
    to_strings, unquote, unquoted,
};
use crate::text::{catalog_for, get_text, Text};
use crate::usage::{argument_list, classify, flags_cluster, label, line, sorted_list};
use vstd::prelude::*;

verus! {

/// The models of the entries held by a vector of definitions.
pub open spec fn entry_specs(v: Seq<OptionDef>) -> Seq<OptionSpec> {
    Seq::new(v.len(), |i: int| v[i]@)
}

/// Defines the options, flags and positional arguments of a program.
#[derive(Debug)]
pub struct CommandLineDef {
    text: Text,
    option_defs: Vec<OptionDef>,
    argument_names: Vec<String>,
}

impl View for CommandLineDef {
    type V = Schema;

    closed spec fn view(&self) -> Schema {
        Schema {
            text: self.text,
            option_defs: entry_specs(self.option_defs@),
            argument_names: texts(self.argument_names@),
        }
    }
}

impl CommandLineDef {
    /// Whether the definition is well formed, as every definition is that
    /// this type's functions make.
    pub open spec fn wf(&self) -> bool {
        self@.wf()
    }

    /// A definition that holds the help flag `-h`, `--help` alone, worded
    /// by the catalog of the machine's locale.
    pub fn new() -> (def: CommandLineDef)
        ensures
            def.wf(),
            exists|tag: Seq<char>| def@ == Schema::initial(catalog_for(tag)),
    {
        let text = get_text();
        let def = Self::with_text(text);
        proof {
            let tag = choose|tag: Seq<char>| text == catalog_for(tag);
            assert(def@ == Schema::initial(catalog_for(tag)));
        }
        def
    }

    /// A definition that holds the help flag `-h`, `--help` alone, worded
    /// by the given catalog.
    pub fn with_text(text: Text) -> (def: CommandLineDef)
        ensures
            def.wf(),
            def@ == Schema::initial(text),
    {
        let mut aliases: Vec<String> = Vec::new();
        aliases.push(String::from_str("-h"));
        aliases.push(String::from_str("--help"));
        let help = OptionDef {
            aliases,
            value_name: None,
            default_value: Some(String::from_str("false")),
            description: String::from_str("Display usage message"),
            valid_values: Vec::new(),
        };
        let mut option_defs: Vec<OptionDef> = Vec::new();
        option_defs.push(help);
        let def = CommandLineDef { text, option_defs, argument_names: Vec::new() };
        proof {
            lemma_initial_wf(text);
            assert(def@.option_defs[0].aliases =~= seq!["-h"@, "--help"@]);
            assert(def@.option_defs[0].valid_values =~= Seq::<Seq<char>>::empty());
            assert(def@.option_defs =~= Schema::initial(text).option_defs);
            assert(def@.argument_names =~= Schema::initial(text).argument_names);
        }
        def
    }

    /// Registers a flag: an option without value, `"false"` unless given.
    pub fn add_flag(&mut self, aliases: Vec<&'static str>, description: &'static str) -> (r: Result<
        (),
        Error,
    >)
        requires
            old(self).wf(),
        ensures
            final(self).wf(),
            match old(self)@.registered(
                slice_texts(aliases@),
                None,
                None,
                description@,
                Seq::empty(),
            ) {
                Ok(schema) => r is Ok && final(self)@ == schema,
                Err(fault) => r is Err && r->Err_0@ == fault && final(self)@ == old(self)@,
            },
    {
        self.add_option(aliases, None, None, description)
    }

    /// Registers an option that accepts any value. Without `value_name` it
    /// is a flag and `default_value` is ignored; with `value_name` and
    /// without `default_value` it is required.
    pub fn add_option(
        &mut self,
        aliases: Vec<&'static str>,
        value_name: Option<&'static str>,
        default_value: Option<&'static str>,
        description: &'static str,
    ) -> (r: Result<(), Error>)
        requires
            old(self).wf(),
        ensures
            final(self).wf(),
            match old(self)@.registered(
                slice_texts(aliases@),
                slice_text_opt(value_name),
                slice_text_opt(default_value),
                description@,
                Seq::empty(),
            ) {
                Ok(schema) => r is Ok && final(self)@ == schema,
                Err(fault) => r is Err && r->Err_0@ == fault && final(self)@ == old(self)@,
            },
    {
        let valid_values: Vec<&'static str> = Vec::new();
        assert(slice_texts(valid_values@) =~= Seq::<Seq<char>>::empty());
        self.add_option_with_values(aliases, value_name, default_value, description, valid_values)
    }

    /// Registers an option with the values that it accepts. The aliases
    /// are kept sorted by their names without dashes. Fails, and leaves the
    /// definition as it was, where an alias is malformed or registered
    /// already. An entry registered without any alias can be named by no
    /// token: it has a help line and no place in the synopsis.
    pub fn add_option_with_values(
        &mut self,
        aliases: Vec<&'static str>,
        value_name: Option<&'static str>,
        default_value: Option<&'static str>,
        description: &'static str,
        valid_values: Vec<&'static str>,
    ) -> (r: Result<(), Error>)
        requires
            old(self).wf(),
        ensures
            final(self).wf(),
            match old(self)@.registered(
                slice_texts(aliases@),
                slice_text_opt(value_name),
                slice_text_opt(default_value),
                description@,
                slice_texts(valid_values@),
            ) {
                Ok(schema) => r is Ok && final(self)@ == schema,
                Err(fault) => r is Err && r->Err_0@ == fault && final(self)@ == old(self)@,
            },
    {
        let default = if value_name.is_some() {
            to_string_opt(default_value)
        } else {
            Some(String::from_str("false"))
        };
        let sorted = sort_by_key(&to_strings(&aliases), "-");
        let ghost entry = new_entry(
            slice_texts(aliases@),
            slice_text_opt(value_name),
            slice_text_opt(default_value),
            description@,
            slice_texts(valid_values@),
        );
        let made = OptionDef::new(
            &self.text,
            sorted,
            to_string_opt(value_name),
            default,
            String::from_str(description),
            to_strings(&valid_values),
        );
        match made {
            Err(e) => Err(e),
            Ok(def) => {
                assert(def@ == entry);
                let mut i: usize = 0;
                while i < def.aliases.len()
                    invariant
                        i <= def.aliases@.len(),
                        def@ == entry,
                        entry == new_entry(
                            slice_texts(aliases@),
                            slice_text_opt(value_name),
                            slice_text_opt(default_value),
                            description@,
                            slice_texts(valid_values@),
                        ),
                        self@ == old(self)@,
                        self.wf(),
                        first_shape_fault(self@.text, entry.aliases) is None,
                        first_redefined(self@.option_defs, entry.aliases, 0) == first_redefined(
                            self@.option_defs,
                            entry.aliases,
                            i as int,
                        ),
                    decreases def.aliases@.len() - i,
                {
                    let alias = def.aliases[i].as_str();
                    assert(texts(def.aliases@) == entry.aliases);
                    assert(alias@ == entry.aliases[i as int]);
                    let known = self.find_option_def(alias).is_some();
                    let repeated = contains_within(&def.aliases, i, alias);
                    if known || repeated {
                        assert(first_redefined(self@.option_defs, entry.aliases, i as int) == Some(
                            i as int,
                        ));
                        return Err(
                            Error {
                                kind: ErrorKind::OptionRedefined,
                                message: self.text.option_redefined(alias),
                            },
                        );
                    }
                    i += 1;
                }
                self.option_defs.push(def);
                proof {
                    lemma_registered_wf(
                        old(self)@,
                        slice_texts(aliases@),
                        slice_text_opt(value_name),
                        slice_text_opt(default_value),
                        description@,
                        slice_texts(valid_values@),
                    );
                    assert(self@.option_defs =~= old(self)@.option_defs.push(entry));
                }
                Ok(())
            },
        }
    }

    /// Declares the next positional argument.
    pub fn add_argument(&mut self, argument_name: &'static str)
        requires
            old(self).wf(),
        ensures
            final(self).wf(),
            final(self)@ == old(self)@.with_argument(argument_name@),
    {
        self.argument_names.push(String::from_str(argument_name));
        proof {
            assert(self@.argument_names =~= old(self)@.argument_names.push(argument_name@));
            assert(self@.option_defs =~= old(self)@.option_defs);
        }
    }

    /// The usage text for a program name: the synopsis, then one help line
    /// for each entry with its label right-aligned to the longest.
    pub fn usage(&self, program_name: &str) -> (s: String)
        requires
            self.wf(),
        ensures
            s@ == self@.usage(program_name@),
    {
        let mut flags: Vec<String> = Vec::new();
        let mut optionals: Vec<String> = Vec::new();
        let mut requireds: Vec<String> = Vec::new();
        let mut labels: Vec<String> = Vec::new();
        let mut width: usize = 0;
        let ghost defs = self@.option_defs;
        let mut i: usize = 0;
        while i < self.option_defs.len()
            invariant
                self.wf(),
                defs == self@.option_defs,
                i <= self.option_defs@.len(),
                texts(flags@) == items_of(defs.take(i as int), Slot::Flag),
                texts(optionals@) == items_of(defs.take(i as int), Slot::Optional),
                texts(requireds@) == items_of(defs.take(i as int), Slot::Required),
                labels@.len() == i,
                forall|k: int| 0 <= k < i ==> (#[trigger] labels@[k])@ == help_label(defs[k]),
                width == label_width(defs.take(i as int)),
            decreases self.option_defs@.len() - i,
        {
            let od = &self.option_defs[i];
            proof {
                assert(od@ == defs[i as int]);
                if defs[i as int].aliases.len() > 0 {
                    assert(alias_fault(defs[i as int].aliases[0]) is None);
                }
                assert(defs.take(i + 1).drop_last() =~= defs.take(i as int));
                assert(defs.take(i + 1).last() == defs[i as int]);
            }
            let (slot, item) = classify(od);
            let ghost before_flags = texts(flags@);
            let ghost before_optionals = texts(optionals@);
            let ghost before_requireds = texts(requireds@);
            match slot {
                Slot::Flag => {
                    flags.push(item);
                    assert(texts(flags@) =~= before_flags.push(item@));
                },
                Slot::Optional => {
                    optionals.push(item);
                    assert(texts(optionals@) =~= before_optionals.push(item@));
                },
                Slot::Required => {
                    requireds.push(item);
                    assert(texts(requireds@) =~= before_requireds.push(item@));
                },
                Slot::Absent => {},
            }
            let text = label(od);
            let len: usize = text.as_str().unicode_len();
            if len > width {
                width = len;
            }
            labels.push(text);
            i += 1;
        }
        assert(defs.take(i as int) =~= defs);
        let mut s = self.text.usage(program_name);
        let part = flags_cluster(&flags);
        s.append(part.as_str());
        let part = sorted_list(&optionals, "-");
        s.append(part.as_str());
        let part = sorted_list(&requireds, "[-");
        s.append(part.as_str());
        let part = argument_list(&self.argument_names);
        s.append(part.as_str());
        assert(s@ == self@.synopsis(program_name@));
        let mut k: usize = 0;
        assert(s@ + Seq::<char>::empty() =~= s@);
        while k < self.option_defs.len()
            invariant
                defs == self@.option_defs,
                k <= self.option_defs@.len(),
                labels@.len() == self.option_defs@.len(),
                forall|j: int|
                    0 <= j < labels@.len() ==> (#[trigger] labels@[j])@ == help_label(defs[j]),
                s@ == self@.synopsis(program_name@) + help_lines(defs.take(k as int), width as nat),
            decreases self.option_defs@.len() - k,
        {
            let od = &self.option_defs[k];
            proof {
                assert(od@ == defs[k as int]);
                assert(defs.take(k + 1).drop_last() =~= defs.take(k as int));
                assert(defs.take(k + 1).last() == defs[k as int]);
            }
            let ghost before = s@;
            let text = line(od, labels[k].as_str(), width);
            s.append(text.as_str());
            assert(s@ =~= self@.synopsis(program_name@) + help_lines(
                defs.take(k + 1),
                width as nat,
            ));
            k += 1;
        }
        assert(defs.take(k as int) =~= defs);
        s
    }

    /// Index of the entry that `option` is an alias of.
    pub fn find_option_def(&self, option: &str) -> (r: Option<usize>)
        ensures
            match r {
                Some(d) => find_option(self@.option_defs, option@) == Some(d as int) && d
                    < self@.option_defs.len(),
                None => find_option(self@.option_defs, option@) is None,
            },
    {
        let mut i: usize = 0;
        while i < self.option_defs.len()
            invariant
                i <= self.option_defs@.len(),
                find_option(self@.option_defs, option@) == find_from(
                    self@.option_defs,
                    option@,
                    i as int,
                ),
            decreases self.option_defs@.len() - i,
        {
            if contains_text(&self.option_defs[i].aliases, option) {
                return Some(i);
            }
            i += 1;
        }
        None
    }

    /// Handles one token with a leading dash: an alias records its value
    /// under every alias of its entry, a flag `"true"` and an option the
    /// token behind it; a cluster records each of its flags; anything else
    /// is an error. Gives the new entries and whether the next token was
    /// taken as the value.
    pub fn parse_option(
        &self,
        option: &str,
        value: Option<&String>,
        usage: &str,
        options: Vec<(String, String)>,
    ) -> (r: Result<(Vec<(String, String)>, bool), Error>)
        ensures
            match engine::resolve_option(
                self@,
                usage@,
                pairs(options@),
                option@,
                text_ref_opt(value),
            ) {
                Ok((entries, taken)) => r is Ok && pairs(r->Ok_0.0@) == entries && r->Ok_0.1
                    == taken,
                Err(fault) => r is Err && r->Err_0@ == fault,
            },
    {
        match self.find_option_def(option) {
            Some(d) => {
                let od = &self.option_defs[d];
                assert(od@ == self@.option_defs[d as int]);
                if od.value_name.is_none() {
                    match record_option(&self.text, usage, options, od, "true") {
                        Ok(entries) => Ok((entries, false)),
                        Err(e) => Err(e),
                    }
                } else {
                    match value {
                        None => Err(
                            usage_error(
                                ErrorKind::OptionValueRequired,
                                self.text.option_value_required(option),
                                usage,
                            ),
                        ),
                        Some(v) => match record_option(&self.text, usage, options, od, v.as_str()) {
                            Ok(entries) => Ok((entries, true)),
                            Err(e) => Err(e),
                        },
                    }
                }
            },
            None => {
                let chars = to_chars(option);
                let dash = to_chars("-");
                if chars.len() > 2 && count_prefix(&chars, &dash) == 1 {
                    match self.parse_cluster(&chars, usage, options) {
                        Ok(entries) => Ok((entries, false)),
                        Err(e) => Err(e),
                    }
                } else {
                    Err(
                        usage_error(
                            ErrorKind::OptionNotDefined,
                            self.text.option_not_defined(option),
                            usage,
                        ),
                    )
                }
            },
        }
    }

    /// Handles a cluster of flags: the characters of `token` behind its
    /// dash, one by one from the left.
    pub fn parse_cluster(&self, token: &Vec<char>, usage: &str, options: Vec<(String, String)>) -> (r:
        Result<Vec<(String, String)>, Error>)
        requires
            token@.len() >= 1,
        ensures
            match engine::record_cluster(self@, usage@, pairs(options@), token@.skip(1)) {
                Ok(entries) => r is Ok && pairs(r->Ok_0@) == entries,
                Err(fault) => r is Err && r->Err_0@ == fault,
            },
    {
        let mut entries = options;
        let mut j: usize = 1;
        while j < token.len()
            invariant
                1 <= j <= token@.len(),
                engine::record_cluster(self@, usage@, pairs(options@), token@.skip(1))
                    == engine::record_cluster(self@, usage@, pairs(entries@), token@.skip(j as int)),
            decreases token@.len() - j,
        {
            proof {
                assert(token@.skip(j as int)[0] == token@[j as int]);
                assert(token@.skip(j as int).skip(1) =~= token@.skip(j + 1));
            }
            let mut flag = String::from_str("-");
            push_char(&mut flag, token[j]);
            match self.find_option_def(flag.as_str()) {
                None => {
                    return Err(
                        usage_error(
                            ErrorKind::FlagNotDefined,
                            self.text.flag_not_defined(flag.as_str()),
                            usage,
                        ),
                    );
                },
                Some(d) => {
                    let od = &self.option_defs[d];
                    assert(od@ == self@.option_defs[d as int]);
                    if od.value_name.is_some() {
                        return Err(
                            usage_error(
                                ErrorKind::OptionInvalidFlag,
                                self.text.option_invalid_flag(flag.as_str()),
                                usage,
                            ),
                        );
                    }
                    if find_value(&entries, flag.as_str()).is_some() {
                        return Err(
                            usage_error(
                                ErrorKind::OptionMultipleFlags,
                                self.text.option_multiple_flags(flag.as_str()),
                                usage,
                            ),
                        );
                    }
                    match record_option(&self.text, usage, entries, od, "true") {
                        Err(e) => {
                            return Err(e);
                        },
                        Ok(recorded) => {
                            entries = recorded;
                        },
                    }
                },
            }
            j += 1;
        }
        Ok(entries)
    }

    /// Gives every alias without a value the default of its entry, and
    /// holds every value against the valid values of its entry, entry by
    /// entry in the order of registration.
    pub fn validate_options(&self, options: Vec<(String, String)>, usage: &str) -> (r: Result<
        Vec<(String, String)>,
        Error,
    >)
        ensures
            match engine::backfill(self@, usage@, pairs(options@), 0) {
                Ok(entries) => r is Ok && pairs(r->Ok_0@) == entries,
                Err(fault) => r is Err && r->Err_0@ == fault,
            },
    {
        let mut entries = options;
        let mut d: usize = 0;
        while d < self.option_defs.len()
            invariant
                d <= self.option_defs@.len(),
                engine::backfill(self@, usage@, pairs(options@), 0) == engine::backfill(
                    self@,
                    usage@,
                    pairs(entries@),
                    d as int,
                ),
            decreases self.option_defs@.len() - d,
        {
            let od = &self.option_defs[d];
            assert(od@ == self@.option_defs[d as int]);
            match validate_entry(&self.text, usage, od, entries) {
                Err(e) => {
                    return Err(e);
                },
                Ok(filled) => {
                    entries = filled;
                },
            }
            d += 1;
        }
        Ok(entries)
    }

    /// Parses the tokens of a command line: the program name, then
    /// options, flags and positional arguments in any order. Gives the
    /// resolved command line; or the usage text, where a token asks for
    /// help; or the first error with the usage text.
    pub fn parse(&self, args: Vec<String>) -> (r: ParseOutcome)
        requires
            self.wf(),
        ensures
            r@ == engine::parse(self@, texts(args@)),
    {
        let ghost tokens = texts(args@);
        let program_name = if args.len() > 0 {
            args[0].clone()
        } else {
            String::new()
        };
        assert(program_name@ == engine::program_of(tokens));
        let usage = self.usage(program_name.as_str());
        let mut options: Vec<(String, String)> = Vec::new();
        let mut arguments: Vec<String> = Vec::new();
        let mut skip_next = false;
        let mut i: usize = 1;
        let ghost start = engine::scan(
            self@,
            usage@,
            engine::arguments_of(tokens),
            false,
            Seq::empty(),
            Seq::empty(),
        );
        proof {
            assert(pairs(options@) =~= Seq::empty());
            assert(texts(arguments@) =~= Seq::empty());
            if args@.len() == 0 {
                assert(start == engine::Scan::Done(Seq::empty(), Seq::empty()));
            }
        }
        while i < args.len()
            invariant
                1 <= i,
                tokens == texts(args@),
                i <= args@.len() || args@.len() == 0,
                start == (if i <= args@.len() {
                    engine::scan(
                        self@,
                        usage@,
                        tokens.skip(i as int),
                        skip_next,
                        pairs(options@),
                        texts(arguments@),
                    )
                } else {
                    engine::Scan::Done(pairs(options@), texts(arguments@))
                }),
                usage@ == self@.usage(engine::program_of(tokens)),
                start == engine::scan(
                    self@,
                    usage@,
                    engine::arguments_of(tokens),
                    false,
                    Seq::empty(),
                    Seq::empty(),
                ),
            decreases args@.len() - i,
        {
            let arg = args[i].as_str();
            proof {
                assert(tokens.skip(i as int)[0] == arg@);
                assert(tokens.skip(i as int).skip(1) =~= tokens.skip(i + 1));
                if i + 1 < args@.len() {
                    assert(tokens.skip(i as int)[1] == args@[i + 1]@);
                }
            }
            if str_eq(arg, "-h") || str_eq(arg, "--help") {
                return ParseOutcome::HelpRequested(usage);
            }
            if skip_next {
                skip_next = false;
            } else if arg.unicode_len() > 0 && arg.get_char(0) == '-' {
                let value = if i + 1 < args.len() {
                    Some(&args[i + 1])
                } else {
                    None
                };
                match self.parse_option(arg, value, usage.as_str(), options) {
                    Err(e) => {
                        return ParseOutcome::Failure(e);
                    },
                    Ok((entries, taken)) => {
                        options = entries;
                        skip_next = taken;
                    },
                }
            } else {
                let ghost before = texts(arguments@);
                arguments.push(unquote(arg));
                assert(texts(arguments@) =~= before.push(unquoted(arg@)));
            }
            i += 1;
        }
        proof {
            if i <= args@.len() {
                assert(tokens.skip(i as int).len() == 0);
            }
        }
        if arguments.len() != self.argument_names.len() {
            let defined = decimal_string(self.argument_names.len());
            let found = decimal_string(arguments.len());
            return ParseOutcome::Failure(
                usage_error(
                    ErrorKind::ArgumentCount,
                    self.text.argument_defined_ne_found(defined.as_str(), found.as_str()),
                    usage.as_str(),
                ),
            );
        }
        let argument_map = zip(&self.argument_names, arguments);
        match self.validate_options(options, usage.as_str()) {
            Err(e) => ParseOutcome::Failure(e),
            Ok(resolved) => ParseOutcome::Success(
                CommandLine::new(self.text, program_name, resolved, argument_map),
            ),
        }
    }
}

/// The text of an optional reference to a string.
pub open spec fn text_ref_opt(o: Option<&String>) -> Option<Seq<char>> {
    match o {
        Some(s) => Some(s@),
        None => None,
    }
}

/// A message with the usage text on the line below it.
pub fn format_usage(msg: &str, usage: &str) -> (s: String)
    ensures
        s@ == msg@ + "\n"@ + usage@,
{
    let mut s = String::from_str(msg);
    s.append("\n");
    s.append(usage);
    s
}

/// An error of the parse, with the usage text below its message.
pub fn usage_error(kind: ErrorKind, message: String, usage: &str) -> (e: Error)
    ensures
        e@ == usage_fault(kind, message@, usage@),
{
    Error { kind, message: format_usage(message.as_str(), usage) }
}

/// Records `value` under every alias of an entry, or fails at the first
/// alias that has a value already.
pub fn record_option(
    text: &Text,
    usage: &str,
    options: Vec<(String, String)>,
    od: &OptionDef,
    value: &str,
) -> (r: Result<Vec<(String, String)>, Error>)
    ensures
        match engine::record_option(*text, usage@, pairs(options@), od@, value@) {
            Ok(entries) => r is Ok && pairs(r->Ok_0@) == entries,
            Err(fault) => r is Err && r->Err_0@ == fault,
        },
{
    let mut entries = options;
    let mut i: usize = 0;
    let ghost aliases = od@.aliases;
    assert(aliases.skip(0) =~= aliases);
    while i < od.aliases.len()
        invariant
            i <= od.aliases@.len(),
            aliases == od@.aliases,
            engine::record_all(pairs(options@), aliases, value@) == engine::record_all(
                pairs(entries@),
                aliases.skip(i as int),
                value@,
            ),
        decreases od.aliases@.len() - i,
    {
        let alias = od.aliases[i].as_str();
        proof {
            assert(aliases.skip(i as int)[0] == alias@);
            assert(aliases.skip(i as int).skip(1) =~= aliases.skip(i + 1));
        }
        if find_value(&entries, alias).is_some() {
            return Err(
                usage_error(
                    ErrorKind::OptionMultipleFound,
                    text.option_multiple_found(alias),
                    usage,
                ),
            );
        }
        let ghost before = pairs(entries@);
        entries.push((String::from_str(alias), String::from_str(value)));
        assert(pairs(entries@) =~= before.push((alias@, value@)));
        i += 1;
    }
    Ok(entries)
}

/// Defaults and validation for the aliases of one entry.
pub fn validate_entry(text: &Text, usage: &str, od: &OptionDef, options: Vec<(String, String)>) -> (r:
    Result<Vec<(String, String)>, Error>)
    ensures
        match engine::backfill_entry(*text, usage@, od@, pairs(options@), 0) {
            Ok(entries) => r is Ok && pairs(r->Ok_0@) == entries,
            Err(fault) => r is Err && r->Err_0@ == fault,
        },
{
    let mut entries = options;
    let mut i: usize = 0;
    while i < od.aliases.len()
        invariant
            i <= od.aliases@.len(),
            engine::backfill_entry(*text, usage@, od@, pairs(options@), 0)
                == engine::backfill_entry(*text, usage@, od@, pairs(entries@), i as int),
        decreases od.aliases@.len() - i,
    {
        let alias = od.aliases[i].as_str();
        assert(alias@ == od@.aliases[i as int]);
        let found = find_value(&entries, alias);
        let ghost before = pairs(entries@);
        let valid = match found {
            Some(at) => od.valid_values.len() == 0 || contains_text(
                &od.valid_values,
                entries[at].1.as_str(),
            ),
            None => match &od.default_value {
                None => {
                    return Err(
                        usage_error(ErrorKind::OptionRequired, text.option_required(alias), usage),
                    );
                },
                Some(value) => {
                    let valid = od.valid_values.len() == 0 || contains_text(
                        &od.valid_values,
                        value.as_str(),
                    );
                    if valid {
                        entries.push((String::from_str(alias), value.clone()));
                        assert(pairs(entries@) =~= before.push((alias@, value@)));
                    }
                    valid
                },
            },
        };
        if !valid {
            let values = join(&od.valid_values, ",");
            return Err(
                usage_error(
                    ErrorKind::OptionValueInvalid,
                    text.option_value_invalid(alias, values.as_str()),
                    usage,
                ),
            );
        }
        i += 1;
    }
    Ok(entries)
}

/// Pairs the declared names with the positional values, in order.
pub fn zip(names: &Vec<String>, values: Vec<String>) -> (r: Vec<(String, String)>)
    requires
        names@.len() == values@.len(),
    ensures
        pairs(r@) == engine::zipped(texts(names@), texts(values@)),
{
    let mut r: Vec<(String, String)> = Vec::new();
    let mut i: usize = 0;
    while i < names.len()
        invariant
            names@.len() == values@.len(),
            i <= names@.len(),
            r@.len() == i,
            forall|k: int|
                0 <= k < i ==> (#[trigger] r@[k]).0@ == names@[k]@ && r@[k].1@ == values@[k]@,
        decreases names@.len() - i,
    {
        r.push((names[i].clone(), values[i].clone()));
        i += 1;
    }
    assert(pairs(r@) =~= engine::zipped(texts(names@), texts(values@)));
    r
}

} // verus!
