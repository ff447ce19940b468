//! The model of a schema: what registration does to it and the usage text
//! that it gives.
use crate::error::{ErrorKind, Fault};
use crate::option_def::{alias_fault, first_shape_fault, OptionSpec};
use crate::strings::{
    concatenated, joined, lemma_sorted_by_key_permutes, padded_left, prefix_count, sorted_by_key,
};
use crate::text::Text;
use vstd::prelude::*;

verus! {

/// The model of a command-line definition.
pub struct Schema {
    /// The catalog that words the messages.
    pub text: Text,
    /// The registered options and flags, in the order of registration.
    pub option_defs: Seq<OptionSpec>,
    /// The names of the positional arguments, in the order of declaration.
    pub argument_names: Seq<Seq<char>>,
}

/// The place of an entry in the first line of the usage text.
#[derive(PartialEq, Eq, Structural, Clone, Copy)]
pub enum Slot {
    /// A short flag, shown in the cluster `[-abc]`.
    Flag,
    /// A long flag, or an option with a default.
    Optional,
    /// An option without a default.
    Required,
    /// An entry without an alias: it cannot be supplied, and has no place
    /// in the synopsis.
    Absent,
}

/// Index of the first entry from `from` on that has `token` among its
/// aliases.
pub open spec fn find_from(defs: Seq<OptionSpec>, token: Seq<char>, from: int) -> Option<int>
    decreases defs.len() - from,
{
    if from < 0 || from >= defs.len() {
        None
    } else if defs[from].aliases.contains(token) {
        Some(from)
    } else {
        find_from(defs, token, from + 1)
    }
}

/// Index of the entry that `token` is an alias of.
pub open spec fn find_option(defs: Seq<OptionSpec>, token: Seq<char>) -> Option<int> {
    find_from(defs, token, 0)
}

/// Index of the first alias from `from` on that is registered already, in
/// `defs` or earlier in the list itself.
pub open spec fn first_redefined(defs: Seq<OptionSpec>, aliases: Seq<Seq<char>>, from: int)
    -> Option<int>
    decreases aliases.len() - from,
{
    if from < 0 || from >= aliases.len() {
        None
    } else if find_option(defs, aliases[from]) is Some || aliases.take(from).contains(
        aliases[from],
    ) {
        Some(from)
    } else {
        first_redefined(defs, aliases, from + 1)
    }
}

/// The entry that a registration makes of its arguments: the aliases sorted
/// by their names without dashes, and `"false"` as the default of a flag.
pub open spec fn new_entry(
    aliases: Seq<Seq<char>>,
    value_name: Option<Seq<char>>,
    default_value: Option<Seq<char>>,
    description: Seq<char>,
    valid_values: Seq<Seq<char>>,
) -> OptionSpec {
    OptionSpec {
        aliases: sorted_by_key(aliases, "-"@),
        value_name,
        default_value: if value_name is Some {
            default_value
        } else {
            Some("false"@)
        },
        description,
        valid_values,
    }
}

/// The built-in help flag.
pub open spec fn help_entry() -> OptionSpec {
    OptionSpec {
        aliases: seq!["-h"@, "--help"@],
        value_name: None,
        default_value: Some("false"@),
        description: "Display usage message"@,
        valid_values: Seq::empty(),
    }
}

impl Schema {
    /// The built-in help flag is the first entry; every alias is well formed
    /// and belongs to one entry only, and every flag defaults to `"false"`.
    pub open spec fn wf(self) -> bool {
        &&& self.option_defs.len() > 0
        &&& self.option_defs[0] == help_entry()
        &&& forall|d: int, i: int|
            0 <= d < self.option_defs.len() && 0 <= i < self.option_defs[d].aliases.len()
                ==> alias_fault(#[trigger] self.option_defs[d].aliases[i]) is None
        &&& forall|d: int, i: int, e: int, j: int|
            0 <= d < self.option_defs.len() && 0 <= i < self.option_defs[d].aliases.len() && 0 <= e
                < self.option_defs.len() && 0 <= j < self.option_defs[e].aliases.len()
                && #[trigger] self.option_defs[d].aliases[i]
                == #[trigger] self.option_defs[e].aliases[j] ==> d == e && i == j
        &&& forall|d: int|
            0 <= d < self.option_defs.len() && (#[trigger] self.option_defs[d]).value_name is None
                ==> self.option_defs[d].default_value == Some("false"@)
    }

    /// The schema that holds the built-in help flag and nothing else.
    pub open spec fn initial(text: Text) -> Schema {
        Schema {
            text,
            option_defs: seq![help_entry()],
            argument_names: Seq::empty(),
        }
    }

    /// What a registration gives: the error for the first alias, in sorted
    /// order, whose shape is wrong; else the error for the first that is
    /// registered already; else the schema with the new entry at its end.
    /// So it succeeds exactly where every alias is well formed, new to the
    /// schema and given once; with no alias at all it adds an entry that no
    /// token can name.
    pub open spec fn registered(
        self,
        aliases: Seq<Seq<char>>,
        value_name: Option<Seq<char>>,
        default_value: Option<Seq<char>>,
        description: Seq<char>,
        valid_values: Seq<Seq<char>>,
    ) -> Result<Schema, Fault> {
        let entry = new_entry(aliases, value_name, default_value, description, valid_values);
        match first_shape_fault(self.text, entry.aliases) {
            Some(fault) => Err(fault),
            None => match first_redefined(self.option_defs, entry.aliases, 0) {
                Some(i) => Err(
                    Fault {
                        kind: ErrorKind::OptionRedefined,
                        message: self.text.option_redefined_text(entry.aliases[i]),
                    },
                ),
                None => Ok(Schema { option_defs: self.option_defs.push(entry), ..self }),
            },
        }
    }

    /// The schema with one more positional argument.
    pub open spec fn with_argument(self, name: Seq<char>) -> Schema {
        Schema { argument_names: self.argument_names.push(name), ..self }
    }

    /// The usage text: the synopsis, then one help line for each entry.
    pub open spec fn usage(self, program_name: Seq<char>) -> Seq<char> {
        self.synopsis(program_name) + help_lines(self.option_defs, label_width(self.option_defs))
    }

    /// The first line of the usage text: the short flags in one cluster,
    /// the optional entries, the required ones, and the arguments' names.
    pub open spec fn synopsis(self, program_name: Seq<char>) -> Seq<char> {
        self.text.usage_text(program_name) + flags_part(self.option_defs) + optionals_part(
            self.option_defs,
        ) + requireds_part(self.option_defs) + arguments_part(self.argument_names)
    }
}

/// Whether an alias is a long one.
pub open spec fn is_long(alias: Seq<char>) -> bool {
    prefix_count(alias, "-"@) >= 2
}

/// Where an entry stands in the synopsis.
pub open spec fn slot_of(d: OptionSpec) -> Slot {
    if d.aliases.len() == 0 {
        Slot::Absent
    } else if d.value_name is Some {
        if d.default_value is None {
            Slot::Required
        } else {
            Slot::Optional
        }
    } else if is_long(d.aliases[0]) {
        Slot::Optional
    } else {
        Slot::Flag
    }
}

/// How an entry is written in the synopsis: by its first alias, with the
/// name of its value if it takes one; a short flag by its character alone.
/// An entry without an alias is not written.
pub open spec fn synopsis_item(d: OptionSpec) -> Seq<char> {
    if d.aliases.len() == 0 {
        Seq::empty()
    } else {
        match d.value_name {
            Some(value_name) => if d.default_value is None {
                d.aliases[0] + " <"@ + value_name + ">"@
            } else {
                "["@ + d.aliases[0] + " <"@ + value_name + ">]"@
            },
            None => if is_long(d.aliases[0]) {
                d.aliases[0]
            } else {
                seq![d.aliases[0].last()]
            },
        }
    }
}

/// The synopsis items of the entries that stand in `slot`, in the order
/// of registration.
pub open spec fn items_of(defs: Seq<OptionSpec>, slot: Slot) -> Seq<Seq<char>>
    decreases defs.len(),
{
    if defs.len() == 0 {
        Seq::empty()
    } else if slot_of(defs.last()) == slot {
        items_of(defs.drop_last(), slot).push(synopsis_item(defs.last()))
    } else {
        items_of(defs.drop_last(), slot)
    }
}

/// The cluster of the short flags, sorted by character.
pub open spec fn flags_part(defs: Seq<OptionSpec>) -> Seq<char> {
    let flags = items_of(defs, Slot::Flag);
    if flags.len() > 0 {
        " [-"@ + concatenated(sorted_by_key(flags, ""@)) + "]"@
    } else {
        Seq::empty()
    }
}

/// The optional entries, sorted by what follows their leading dashes.
pub open spec fn optionals_part(defs: Seq<OptionSpec>) -> Seq<char> {
    let items = items_of(defs, Slot::Optional);
    if items.len() > 0 {
        " "@ + joined(sorted_by_key(items, "-"@), " "@)
    } else {
        Seq::empty()
    }
}

/// The required entries, sorted by their names.
pub open spec fn requireds_part(defs: Seq<OptionSpec>) -> Seq<char> {
    let items = items_of(defs, Slot::Required);
    if items.len() > 0 {
        " "@ + joined(sorted_by_key(items, "[-"@), " "@)
    } else {
        Seq::empty()
    }
}

/// The names of the positional arguments, each in angle brackets.
pub open spec fn arguments_part(names: Seq<Seq<char>>) -> Seq<char> {
    if names.len() > 0 {
        " <"@ + joined(names, "> <"@) + ">"@
    } else {
        Seq::empty()
    }
}

/// What a help line shows of an entry before the colon: its aliases and
/// the name of its value.
pub open spec fn help_label(d: OptionSpec) -> Seq<char> {
    match d.value_name {
        Some(value_name) => joined(d.aliases, ", "@) + " <"@ + value_name + ">"@,
        None => joined(d.aliases, ", "@),
    }
}

/// The length of the longest label.
pub open spec fn label_width(defs: Seq<OptionSpec>) -> nat
    decreases defs.len(),
{
    if defs.len() == 0 {
        0
    } else {
        let front = label_width(defs.drop_last());
        if help_label(defs.last()).len() > front {
            help_label(defs.last()).len()
        } else {
            front
        }
    }
}

/// The help line of an entry: its label, right-aligned in a column of
/// `width` characters, its valid values if it has any, and its description.
pub open spec fn help_line(d: OptionSpec, width: nat) -> Seq<char> {
    if d.valid_values.len() > 0 {
        "\n"@ + padded_left(help_label(d), width) + " : ["@ + joined(d.valid_values, ","@)
            + "]. "@ + d.description
    } else {
        "\n"@ + padded_left(help_label(d), width) + " : "@ + d.description
    }
}

/// The help lines of all entries, in the order of registration.
pub open spec fn help_lines(defs: Seq<OptionSpec>, width: nat) -> Seq<char>
    decreases defs.len(),
{
    if defs.len() == 0 {
        Seq::empty()
    } else {
        help_lines(defs.drop_last(), width) + help_line(defs.last(), width)
    }
}

/// An error of the parse: the catalog's message, a line break, and the
/// usage text.
pub open spec fn usage_fault(kind: ErrorKind, message: Seq<char>, usage: Seq<char>) -> Fault {
    Fault { kind, message: message + "\n"@ + usage }
}

/// Where the search finds nothing, no entry from `from` on has the token
/// among its aliases; where it finds an entry, that entry has it.
pub proof fn lemma_find_from(defs: Seq<OptionSpec>, token: Seq<char>, from: int)
    requires
        0 <= from,
    ensures
        match find_from(defs, token, from) {
            None => forall|d: int|
                from <= d < defs.len() ==> !(#[trigger] defs[d]).aliases.contains(token),
            Some(d) => from <= d < defs.len() && defs[d].aliases.contains(token),
        },
    decreases defs.len() - from,
{
    if from < defs.len() && !defs[from].aliases.contains(token) {
        lemma_find_from(defs, token, from + 1);
    }
}

/// In a well-formed schema every alias leads to the entry that holds it.
pub proof fn lemma_find_alias(schema: Schema, d: int, i: int)
    requires
        schema.wf(),
        0 <= d < schema.option_defs.len(),
        0 <= i < schema.option_defs[d].aliases.len(),
    ensures
        find_option(schema.option_defs, schema.option_defs[d].aliases[i]) == Some(d),
{
    let token = schema.option_defs[d].aliases[i];
    lemma_find_from(schema.option_defs, token, 0);
    assert(schema.option_defs[d].aliases.contains(token));
    match find_option(schema.option_defs, token) {
        Some(e) => {
            let j = choose|j: int|
                0 <= j < schema.option_defs[e].aliases.len() && schema.option_defs[e].aliases[j]
                    == token;
            assert(schema.option_defs[e].aliases[j] == schema.option_defs[d].aliases[i]);
        },
        None => {},
    }
}

/// Where no alias from `from` on is registered already, each of them is
/// new to the entries and to the aliases before it.
pub proof fn lemma_first_redefined(defs: Seq<OptionSpec>, aliases: Seq<Seq<char>>, from: int)
    requires
        0 <= from,
        first_redefined(defs, aliases, from) is None,
    ensures
        forall|k: int|
            from <= k < aliases.len() ==> find_option(defs, #[trigger] aliases[k]) is None
                && !aliases.take(k).contains(aliases[k]),
    decreases aliases.len() - from,
{
    if from < aliases.len() {
        lemma_first_redefined(defs, aliases, from + 1);
    }
}

/// Where no alias of a list has a wrong shape, each is well formed.
pub proof fn lemma_first_shape_fault(text: Text, aliases: Seq<Seq<char>>)
    requires
        first_shape_fault(text, aliases) is None,
    ensures
        forall|k: int| 0 <= k < aliases.len() ==> alias_fault(#[trigger] aliases[k]) is None,
    decreases aliases.len(),
{
    if aliases.len() > 0 {
        lemma_first_shape_fault(text, aliases.skip(1));
        assert forall|k: int| 0 <= k < aliases.len() implies alias_fault(
            #[trigger] aliases[k],
        ) is None by {
            if k > 0 {
                assert(aliases.skip(1)[k - 1] == aliases[k]);
            }
        }
    }
}

/// Registration keeps a schema well formed: the entry that it adds has
/// well-formed aliases that no entry held before.
pub proof fn lemma_registered_wf(
    schema: Schema,
    aliases: Seq<Seq<char>>,
    value_name: Option<Seq<char>>,
    default_value: Option<Seq<char>>,
    description: Seq<char>,
    valid_values: Seq<Seq<char>>,
)
    requires
        schema.wf(),
        schema.registered(aliases, value_name, default_value, description, valid_values) is Ok,
    ensures
        schema.registered(
            aliases,
            value_name,
            default_value,
            description,
            valid_values,
        )->Ok_0.wf(),
{
    let entry = new_entry(aliases, value_name, default_value, description, valid_values);
    let after = schema.registered(
        aliases,
        value_name,
        default_value,
        description,
        valid_values,
    )->Ok_0;
    lemma_first_shape_fault(schema.text, entry.aliases);
    lemma_first_redefined(schema.option_defs, entry.aliases, 0);
    let n = schema.option_defs.len() as int;
    assert(after.option_defs == schema.option_defs.push(entry));
    assert forall|d: int, i: int, e: int, j: int|
        0 <= d < after.option_defs.len() && 0 <= i < after.option_defs[d].aliases.len() && 0 <= e
            < after.option_defs.len() && 0 <= j < after.option_defs[e].aliases.len()
            && #[trigger] after.option_defs[d].aliases[i]
            == #[trigger] after.option_defs[e].aliases[j] implies d == e && i == j by {
        if d == n && e == n {
            if i < j {
                assert(entry.aliases.take(j)[i] == entry.aliases[i]);
            } else if j < i {
                assert(entry.aliases.take(i)[j] == entry.aliases[j]);
            }
        } else if d == n {
            lemma_find_from(schema.option_defs, entry.aliases[i], 0);
            assert(schema.option_defs[e].aliases.contains(entry.aliases[i]));
        } else if e == n {
            lemma_find_from(schema.option_defs, entry.aliases[j], 0);
            assert(schema.option_defs[d].aliases.contains(entry.aliases[j]));
        } else {
            assert(schema.option_defs[d].aliases[i] == schema.option_defs[e].aliases[j]);
        }
    }
    assert forall|d: int, i: int|
        0 <= d < after.option_defs.len() && 0 <= i < after.option_defs[d].aliases.len()
            implies alias_fault(#[trigger] after.option_defs[d].aliases[i]) is None by {
        if d < n {
            assert(alias_fault(schema.option_defs[d].aliases[i]) is None);
        }
    }
    assert forall|d: int|
        0 <= d < after.option_defs.len() && (
        #[trigger] after.option_defs[d]).value_name is None implies after.option_defs[d].default_value
        == Some("false"@) by {
        if d < n {
            assert(schema.option_defs[d].value_name is None);
        }
    }
}

/// Where every alias of a list is well formed, the list has no alias
/// whose shape is wrong.
pub proof fn lemma_no_shape_fault(text: Text, aliases: Seq<Seq<char>>)
    requires
        forall|k: int| 0 <= k < aliases.len() ==> alias_fault(#[trigger] aliases[k]) is None,
    ensures
        first_shape_fault(text, aliases) is None,
    decreases aliases.len(),
{
    if aliases.len() > 0 {
        assert forall|k: int| 0 <= k < aliases.skip(1).len() implies alias_fault(
            #[trigger] aliases.skip(1)[k],
        ) is None by {
            assert(aliases.skip(1)[k] == aliases[k + 1]);
        }
        lemma_no_shape_fault(text, aliases.skip(1));
    }
}

/// Where every alias from `from` on is new to the entries and to the
/// aliases before it, none of them is registered already.
pub proof fn lemma_none_redefined(defs: Seq<OptionSpec>, aliases: Seq<Seq<char>>, from: int)
    requires
        0 <= from,
        forall|k: int|
            from <= k < aliases.len() ==> find_option(defs, #[trigger] aliases[k]) is None
                && !aliases.take(k).contains(aliases[k]),
    ensures
        first_redefined(defs, aliases, from) is None,
    decreases aliases.len() - from,
{
    if from < aliases.len() {
        lemma_none_redefined(defs, aliases, from + 1);
    }
}

/// Registration succeeds exactly where every alias is well formed, is new
/// to the schema and is given once. The new entry then stands behind the
/// earlier ones, which are as they were, with the catalog and the names
/// of the arguments; every new alias leads to the new entry, and every
/// earlier alias to its entry as before.
pub proof fn law_registration(
    schema: Schema,
    aliases: Seq<Seq<char>>,
    value_name: Option<Seq<char>>,
    default_value: Option<Seq<char>>,
    description: Seq<char>,
    valid_values: Seq<Seq<char>>,
)
    requires
        schema.wf(),
    ensures
        schema.registered(aliases, value_name, default_value, description, valid_values) is Ok
            <==> aliases.no_duplicates() && forall|k: int|
            0 <= k < aliases.len() ==> alias_fault(#[trigger] aliases[k]) is None && find_option(
                schema.option_defs,
                aliases[k],
            ) is None,
        schema.registered(
            aliases,
            value_name,
            default_value,
            description,
            valid_values,
        ) matches Ok(after) ==> {
            &&& after.wf()
            &&& after.text == schema.text
            &&& after.argument_names == schema.argument_names
            &&& after.option_defs.len() == schema.option_defs.len() + 1
            &&& after.option_defs.drop_last() == schema.option_defs
            &&& forall|k: int|
                0 <= k < aliases.len() ==> find_option(after.option_defs, #[trigger] aliases[k])
                    == Some(schema.option_defs.len() as int)
            &&& forall|d: int, i: int|
                0 <= d < schema.option_defs.len() && 0 <= i < schema.option_defs[d].aliases.len()
                    ==> find_option(after.option_defs, #[trigger] schema.option_defs[d].aliases[i])
                    == Some(d)
        },
{
    let entry = new_entry(aliases, value_name, default_value, description, valid_values);
    let sorted = entry.aliases;
    let outcome = schema.registered(aliases, value_name, default_value, description, valid_values);
    let n = schema.option_defs.len() as int;
    lemma_sorted_by_key_permutes(aliases, "-"@);
    assert forall|x: Seq<char>| sorted.contains(x) <==> aliases.contains(x) by {
        vstd::seq_lib::to_multiset_contains(sorted, x);
        vstd::seq_lib::to_multiset_contains(aliases, x);
    }
    if outcome is Ok {
        lemma_first_shape_fault(schema.text, sorted);
        lemma_first_redefined(schema.option_defs, sorted, 0);
        assert forall|i: int, j: int|
            0 <= i < sorted.len() && 0 <= j < sorted.len() && i != j implies sorted[i]
            != sorted[j] by {
            if i < j {
                assert(sorted.take(j)[i] == sorted[i]);
            } else {
                assert(sorted.take(i)[j] == sorted[j]);
            }
        }
        assert(sorted.no_duplicates());
        sorted.lemma_multiset_has_no_duplicates();
        aliases.lemma_multiset_has_no_duplicates_conv();
        assert forall|k: int| 0 <= k < aliases.len() implies alias_fault(
            #[trigger] aliases[k],
        ) is None && find_option(schema.option_defs, aliases[k]) is None by {
            assert(aliases.contains(aliases[k]));
            let m = choose|m: int| 0 <= m < sorted.len() && sorted[m] == aliases[k];
            assert(alias_fault(sorted[m]) is None);
        }
        lemma_registered_wf(schema, aliases, value_name, default_value, description, valid_values);
        let after = outcome->Ok_0;
        assert(after.option_defs.drop_last() =~= schema.option_defs);
        assert(after.option_defs[n].aliases == sorted);
        assert forall|k: int| 0 <= k < aliases.len() implies find_option(
            after.option_defs,
            #[trigger] aliases[k],
        ) == Some(n) by {
            assert(aliases.contains(aliases[k]));
            let m = choose|m: int| 0 <= m < sorted.len() && sorted[m] == aliases[k];
            lemma_find_alias(after, n, m);
        }
        assert forall|d: int, i: int|
            0 <= d < n && 0 <= i < schema.option_defs[d].aliases.len() implies find_option(
            after.option_defs,
            #[trigger] schema.option_defs[d].aliases[i],
        ) == Some(d) by {
            assert(after.option_defs[d] == schema.option_defs[d]);
            lemma_find_alias(after, d, i);
        }
    }
    if aliases.no_duplicates() && forall|k: int|
        0 <= k < aliases.len() ==> alias_fault(#[trigger] aliases[k]) is None && find_option(
            schema.option_defs,
            aliases[k],
        ) is None {
        aliases.lemma_multiset_has_no_duplicates();
        sorted.lemma_multiset_has_no_duplicates_conv();
        assert forall|k: int| 0 <= k < sorted.len() implies alias_fault(
            #[trigger] sorted[k],
        ) is None && find_option(schema.option_defs, sorted[k]) is None && !sorted.take(
            k,
        ).contains(sorted[k]) by {
            assert(sorted.contains(sorted[k]));
            let m = choose|m: int| 0 <= m < aliases.len() && aliases[m] == sorted[k];
            assert(alias_fault(aliases[m]) is None);
            if sorted.take(k).contains(sorted[k]) {
                let q = choose|q: int| 0 <= q < sorted.take(k).len() && sorted.take(k)[q] == sorted[k];
                assert(sorted[q] == sorted[k]);
            }
        }
        lemma_no_shape_fault(schema.text, sorted);
        lemma_none_redefined(schema.option_defs, sorted, 0);
    }
}

/// The schema that holds the help flag alone is well formed.
pub proof fn lemma_initial_wf(text: Text)
    ensures
        Schema::initial(text).wf(),
{
    reveal_strlit("-");
    reveal_strlit("-h");
    reveal_strlit("--help");
    let schema = Schema::initial(text);
    let short = "-h"@;
    let long = "--help"@;
    assert("-"@.contains('-')) by {
        assert("-"@[0] == '-');
    }
    assert(!"-"@.contains('h'));
    assert(prefix_count(short, "-"@) == 1) by {
        reveal_with_fuel(prefix_count, 3);
        assert(short.skip(1)[0] == 'h');
    }
    assert(prefix_count(long, "-"@) == 2) by {
        reveal_with_fuel(prefix_count, 4);
        assert(long.skip(1)[0] == '-');
        assert(long.skip(1).skip(1)[0] == 'h');
    }
    assert(schema.option_defs[0].aliases[0] == short);
    assert(schema.option_defs[0].aliases[1] == long);
    assert(short.len() != long.len());
}

} // verus!
