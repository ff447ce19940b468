//! What holds of every parse: defaults, aliases, flag clusters, and the
//! order and the number of the positional arguments.
use crate::engine::{
    arguments_of, backfill, backfill_alias, backfill_entry, count_fault, flag_alias,
    is_cluster, is_dashed, is_help, lookahead, lookup, parse, program_of, record_all,
    record_cluster, record_option, resolve_option, scan, zipped, Entries, Outcome, Scan,
};
use crate::option_def::{alias_fault, OptionSpec};
use crate::schema::{find_option, lemma_find_alias, lemma_find_from, lemma_initial_wf, Schema};
use crate::strings::{prefix_count, unquoted};
use crate::text::Text;
use vstd::prelude::*;

verus! {

/// A lookup behind one more recording gives the new value for its key and
/// the old value for any other key.
pub proof fn lemma_lookup_push(entries: Entries, key: Seq<char>, value: Seq<char>, other: Seq<char>)
    ensures
        lookup(entries.push((key, value)), other) == (if other == key {
            Some(value)
        } else {
            lookup(entries, other)
        }),
{
    assert(entries.push((key, value)).drop_last() =~= entries);
}

/// Where recording under a list of aliases succeeds, none of them had a
/// value before, each of them has the new value after, and every other key
/// has the value that it had.
pub proof fn lemma_record_all(entries: Entries, aliases: Seq<Seq<char>>, value: Seq<char>)
    requires
        record_all(entries, aliases, value) is Ok,
    ensures
        forall|k: int| 0 <= k < aliases.len() ==> lookup(entries, #[trigger] aliases[k]) is None,
        forall|key: Seq<char>|
            lookup(record_all(entries, aliases, value)->Ok_0, key) == (if aliases.contains(key) {
                Some(value)
            } else {
                #[trigger] lookup(entries, key)
            }),
    decreases aliases.len(),
{
    if aliases.len() > 0 {
        let next = entries.push((aliases[0], value));
        lemma_record_all(next, aliases.skip(1), value);
        assert forall|k: int| 0 <= k < aliases.len() implies lookup(
            entries,
            #[trigger] aliases[k],
        ) is None by {
            if k > 0 {
                assert(aliases.skip(1)[k - 1] == aliases[k]);
                lemma_lookup_push(entries, aliases[0], value, aliases[k]);
            }
        }
        assert forall|key: Seq<char>|
            lookup(record_all(entries, aliases, value)->Ok_0, key) == (if aliases.contains(key) {
                Some(value)
            } else {
                #[trigger] lookup(entries, key)
            }) by {
            lemma_lookup_push(entries, aliases[0], value, key);
            if aliases.skip(1).contains(key) {
                let k = choose|k: int| 0 <= k < aliases.skip(1).len() && aliases.skip(1)[k] == key;
                assert(aliases[k + 1] == key);
            } else if aliases.contains(key) {
                let k = choose|k: int| 0 <= k < aliases.len() && aliases[k] == key;
                if k > 0 {
                    assert(aliases.skip(1)[k - 1] == key);
                }
            }
        }
    } else {
        assert forall|key: Seq<char>| !aliases.contains(key) by {}
    }
}

/// Recording under a list of aliases fails where one of them has a value
/// already.
pub proof fn lemma_record_all_taken(
    entries: Entries,
    aliases: Seq<Seq<char>>,
    value: Seq<char>,
    key: Seq<char>,
)
    requires
        aliases.contains(key),
        lookup(entries, key) is Some,
    ensures
        record_all(entries, aliases, value) is Err,
    decreases aliases.len(),
{
    if aliases.len() > 0 && aliases[0] != key && lookup(entries, aliases[0]) is None {
        let k = choose|k: int| 0 <= k < aliases.len() && aliases[k] == key;
        assert(aliases.skip(1)[k - 1] == key);
        lemma_lookup_push(entries, aliases[0], value, key);
        lemma_record_all_taken(entries.push((aliases[0], value)), aliases.skip(1), value, key);
    }
}

/// What the defaulting of one alias does to the lookups: the alias keeps
/// the value that it had, or gets the default; every other key is left as
/// it was.
pub proof fn lemma_backfill_alias(
    text: Text,
    usage: Seq<char>,
    d: OptionSpec,
    entries: Entries,
    alias: Seq<char>,
)
    requires
        backfill_alias(text, usage, d, entries, alias) is Ok,
    ensures
        forall|key: Seq<char>|
            key != alias ==> #[trigger] lookup(
                backfill_alias(text, usage, d, entries, alias)->Ok_0,
                key,
            ) == lookup(entries, key),
        lookup(backfill_alias(text, usage, d, entries, alias)->Ok_0, alias) == (if lookup(
            entries,
            alias,
        ) is Some {
            lookup(entries, alias)
        } else {
            d.default_value
        }),
        lookup(backfill_alias(text, usage, d, entries, alias)->Ok_0, alias) is Some,
{
    match lookup(entries, alias) {
        Some(_) => {},
        None => {
            let value = d.default_value->Some_0;
            assert forall|key: Seq<char>|
                lookup(entries.push((alias, value)), key) == (if key == alias {
                    Some(value)
                } else {
                    lookup(entries, key)
                }) by {
                lemma_lookup_push(entries, alias, value, key);
            }
        },
    }
}

/// The value that an alias of `d` has after the pass of defaults: the one
/// recorded for it, or the default of its entry.
pub open spec fn settled(d: OptionSpec, entries: Entries, alias: Seq<char>) -> Option<Seq<char>> {
    if lookup(entries, alias) is Some {
        lookup(entries, alias)
    } else {
        d.default_value
    }
}

/// Whether the aliases of an entry differ from one another.
pub open spec fn distinct(aliases: Seq<Seq<char>>) -> bool {
    forall|i: int, j: int|
        0 <= i < aliases.len() && 0 <= j < aliases.len() && #[trigger] aliases[i]
            == #[trigger] aliases[j] ==> i == j
}

/// What the defaulting of the aliases of one entry from `from` on does to
/// the lookups.
pub proof fn lemma_backfill_entry(
    text: Text,
    usage: Seq<char>,
    d: OptionSpec,
    entries: Entries,
    from: int,
)
    requires
        0 <= from,
        distinct(d.aliases),
        backfill_entry(text, usage, d, entries, from) is Ok,
    ensures
        forall|i: int|
            from <= i < d.aliases.len() ==> lookup(
                backfill_entry(text, usage, d, entries, from)->Ok_0,
                #[trigger] d.aliases[i],
            ) == settled(d, entries, d.aliases[i]) && settled(d, entries, d.aliases[i]) is Some,
        forall|key: Seq<char>|
            !d.aliases.skip(from).contains(key) ==> #[trigger] lookup(
                backfill_entry(text, usage, d, entries, from)->Ok_0,
                key,
            ) == lookup(entries, key),
    decreases d.aliases.len() - from,
{
    if from < d.aliases.len() {
        let alias = d.aliases[from];
        let next = backfill_alias(text, usage, d, entries, alias)->Ok_0;
        let out = backfill_entry(text, usage, d, entries, from)->Ok_0;
        lemma_backfill_alias(text, usage, d, entries, alias);
        lemma_backfill_entry(text, usage, d, next, from + 1);
        assert(d.aliases.skip(from)[0] == alias);
        assert forall|i: int| from <= i < d.aliases.len() implies lookup(
            out,
            #[trigger] d.aliases[i],
        ) == settled(d, entries, d.aliases[i]) && settled(d, entries, d.aliases[i]) is Some by {
            if i == from {
                let rest = d.aliases.skip(from + 1);
                assert forall|k: int| 0 <= k < rest.len() implies #[trigger] rest[k] != alias by {
                    assert(rest[k] == d.aliases[from + 1 + k]);
                }
                assert(!rest.contains(alias));
            } else {
                assert(d.aliases[i] != alias);
            }
        }
        assert forall|key: Seq<char>| !d.aliases.skip(from).contains(key) implies #[trigger] lookup(
            out,
            key,
        ) == lookup(entries, key) by {
            assert(key != alias);
            let rest = d.aliases.skip(from + 1);
            assert forall|k: int| 0 <= k < rest.len() implies #[trigger] rest[k] != key by {
                assert(rest[k] == d.aliases.skip(from)[k + 1]);
            }
        }
    }
}

/// Whether `key` is an alias of one of the entries from `from` on.
pub open spec fn registered_from(schema: Schema, key: Seq<char>, from: int) -> bool {
    exists|d: int|
        from <= d < schema.option_defs.len() && (#[trigger] schema.option_defs[d]).aliases.contains(
            key,
        )
}

/// In a well-formed schema the aliases of each entry differ from one
/// another.
pub proof fn lemma_entry_distinct(schema: Schema, d: int)
    requires
        schema.wf(),
        0 <= d < schema.option_defs.len(),
    ensures
        distinct(schema.option_defs[d].aliases),
{
    assert forall|i: int, j: int|
        0 <= i < schema.option_defs[d].aliases.len() && 0 <= j < schema.option_defs[d].aliases.len()
            && #[trigger] schema.option_defs[d].aliases[i]
            == #[trigger] schema.option_defs[d].aliases[j] implies i == j by {}
}

/// What the pass of defaults from the entry `from` on does to the lookups:
/// every alias of these entries has its recorded value or the default of
/// its entry, and every other key is left as it was.
pub proof fn lemma_backfill(schema: Schema, usage: Seq<char>, entries: Entries, from: int)
    requires
        schema.wf(),
        0 <= from,
        backfill(schema, usage, entries, from) is Ok,
    ensures
        forall|d: int, i: int|
            from <= d < schema.option_defs.len() && 0 <= i < schema.option_defs[d].aliases.len()
                ==> lookup(
                backfill(schema, usage, entries, from)->Ok_0,
                #[trigger] schema.option_defs[d].aliases[i],
            ) == settled(schema.option_defs[d], entries, schema.option_defs[d].aliases[i])
                && settled(
                schema.option_defs[d],
                entries,
                schema.option_defs[d].aliases[i],
            ) is Some,
        forall|key: Seq<char>|
            !registered_from(schema, key, from) ==> #[trigger] lookup(
                backfill(schema, usage, entries, from)->Ok_0,
                key,
            ) == lookup(entries, key),
    decreases schema.option_defs.len() - from,
{
    if from < schema.option_defs.len() {
        let def = schema.option_defs[from];
        let next = backfill_entry(schema.text, usage, def, entries, 0)->Ok_0;
        let out = backfill(schema, usage, entries, from)->Ok_0;
        lemma_entry_distinct(schema, from);
        lemma_backfill_entry(schema.text, usage, def, entries, 0);
        lemma_backfill(schema, usage, next, from + 1);
        assert(def.aliases.skip(0) =~= def.aliases);
        assert forall|d: int, i: int|
            from <= d < schema.option_defs.len() && 0 <= i < schema.option_defs[d].aliases.len()
                implies lookup(out, #[trigger] schema.option_defs[d].aliases[i]) == settled(
            schema.option_defs[d],
            entries,
            schema.option_defs[d].aliases[i],
        ) && settled(schema.option_defs[d], entries, schema.option_defs[d].aliases[i]) is Some by {
            let alias = schema.option_defs[d].aliases[i];
            if d == from {
                if registered_from(schema, alias, from + 1) {
                    let e = choose|e: int|
                        from + 1 <= e < schema.option_defs.len() && (
                        #[trigger] schema.option_defs[e]).aliases.contains(alias);
                    let j = choose|j: int|
                        0 <= j < schema.option_defs[e].aliases.len()
                            && schema.option_defs[e].aliases[j] == alias;
                    assert(schema.option_defs[e].aliases[j] == schema.option_defs[d].aliases[i]);
                }
            } else {
                if def.aliases.contains(alias) {
                    let j = choose|j: int| 0 <= j < def.aliases.len() && def.aliases[j] == alias;
                    assert(schema.option_defs[from].aliases[j] == schema.option_defs[d].aliases[i]);
                }
            }
        }
        assert forall|key: Seq<char>| !registered_from(schema, key, from) implies #[trigger] lookup(
            out,
            key,
        ) == lookup(entries, key) by {
            assert(!schema.option_defs[from].aliases.contains(key));
            if registered_from(schema, key, from + 1) {
                let e = choose|e: int|
                    from + 1 <= e < schema.option_defs.len() && (
                    #[trigger] schema.option_defs[e]).aliases.contains(key);
                assert(schema.option_defs[e].aliases.contains(key));
            }
        }
    }
}

/// After a successful parse every alias of every registered entry has a
/// value: the one that the tokens gave it, or the default of its entry.
pub proof fn law_every_alias_resolved(schema: Schema, tokens: Seq<Seq<char>>, d: int, i: int)
    requires
        schema.wf(),
        parse(schema, tokens) is Success,
        0 <= d < schema.option_defs.len(),
        0 <= i < schema.option_defs[d].aliases.len(),
    ensures
        lookup(parse(schema, tokens)->Success_0.options, schema.option_defs[d].aliases[i]) is Some,
{
    let usage = schema.usage(program_of(tokens));
    let scanned = scan(schema, usage, arguments_of(tokens), false, Seq::empty(), Seq::empty());
    match scanned {
        Scan::Done(entries, positionals) => {
            lemma_backfill(schema, usage, entries, 0);
        },
        _ => {},
    }
}

/// Whether `token` is an alias of an option that takes a value.
pub open spec fn takes_value(schema: Schema, token: Seq<char>) -> bool {
    match find_option(schema.option_defs, token) {
        Some(d) => schema.option_defs[d].value_name is Some,
        None => false,
    }
}

/// The tokens that are neither options nor values of options, in their
/// order: those without a leading dash that do not stand behind an option
/// that takes a value. `skip` says that the first token stands behind one.
pub open spec fn plain_tokens(schema: Schema, rest: Seq<Seq<char>>, skip: bool) -> Seq<Seq<char>>
    decreases rest.len(),
{
    if rest.len() == 0 {
        Seq::empty()
    } else if skip {
        plain_tokens(schema, rest.skip(1), false)
    } else if is_dashed(rest[0]) {
        plain_tokens(schema, rest.skip(1), takes_value(schema, rest[0]))
    } else {
        seq![rest[0]] + plain_tokens(schema, rest.skip(1), false)
    }
}

/// Each of the tokens without its layer of quotes.
pub open spec fn unquoted_all(tokens: Seq<Seq<char>>) -> Seq<Seq<char>> {
    Seq::new(tokens.len(), |k: int| unquoted(tokens[k]))
}

/// A pass that reaches the end has collected the plain tokens, in their
/// order, behind the positional values that it began with.
pub proof fn lemma_scan_positionals(
    schema: Schema,
    usage: Seq<char>,
    rest: Seq<Seq<char>>,
    skip: bool,
    entries: Entries,
    positionals: Seq<Seq<char>>,
)
    requires
        scan(schema, usage, rest, skip, entries, positionals) is Done,
    ensures
        scan(schema, usage, rest, skip, entries, positionals)->Done_1 == positionals
            + unquoted_all(plain_tokens(schema, rest, skip)),
    decreases rest.len(),
{
    let plain = plain_tokens(schema, rest, skip);
    if rest.len() == 0 {
        assert(positionals + unquoted_all(plain) =~= positionals);
    } else if skip {
        lemma_scan_positionals(schema, usage, rest.skip(1), false, entries, positionals);
    } else if is_dashed(rest[0]) {
        let step = resolve_option(schema, usage, entries, rest[0], lookahead(rest));
        let e = step->Ok_0.0;
        let taken = step->Ok_0.1;
        assert(taken == takes_value(schema, rest[0]));
        lemma_scan_positionals(schema, usage, rest.skip(1), taken, e, positionals);
    } else {
        let value = unquoted(rest[0]);
        let tail = plain_tokens(schema, rest.skip(1), false);
        lemma_scan_positionals(schema, usage, rest.skip(1), false, entries, positionals.push(value));
        assert(unquoted_all(seq![rest[0]] + tail) =~= seq![value] + unquoted_all(tail));
        assert(positionals.push(value) + unquoted_all(tail) =~= positionals + (seq![value]
            + unquoted_all(tail)));
    }
}

/// The positional arguments of a successful parse are the plain tokens in
/// their order from left to right, whatever options stand between them:
/// the k-th declared name has the k-th plain token, without its layer of
/// quotes, as its value.
pub proof fn law_positional_order(schema: Schema, tokens: Seq<Seq<char>>)
    requires
        parse(schema, tokens) is Success,
    ensures
        plain_tokens(schema, arguments_of(tokens), false).len() == schema.argument_names.len(),
        parse(schema, tokens)->Success_0.arguments.len() == schema.argument_names.len(),
        parse(schema, tokens)->Success_0.arguments == zipped(
            schema.argument_names,
            unquoted_all(plain_tokens(schema, arguments_of(tokens), false)),
        ),
{
    let usage = schema.usage(program_of(tokens));
    let empty = Seq::<Seq<char>>::empty();
    lemma_scan_positionals(schema, usage, arguments_of(tokens), false, Seq::empty(), empty);
    assert(empty + unquoted_all(plain_tokens(schema, arguments_of(tokens), false)) =~= unquoted_all(
        plain_tokens(schema, arguments_of(tokens), false),
    ));
}

/// Whether none of the tokens has a leading dash.
pub open spec fn all_plain(tokens: Seq<Seq<char>>) -> bool {
    forall|k: int| 0 <= k < tokens.len() ==> !is_dashed(#[trigger] tokens[k])
}

/// A token that asks for help has a leading dash.
pub proof fn lemma_help_is_dashed(token: Seq<char>)
    requires
        is_help(token),
    ensures
        is_dashed(token),
{
    reveal_strlit("-h");
    reveal_strlit("--help");
}

/// A pass over tokens without a leading dash records no option and
/// collects every token.
pub proof fn lemma_scan_plain(
    schema: Schema,
    usage: Seq<char>,
    rest: Seq<Seq<char>>,
    entries: Entries,
    positionals: Seq<Seq<char>>,
)
    requires
        all_plain(rest),
    ensures
        scan(schema, usage, rest, false, entries, positionals) == Scan::Done(
            entries,
            positionals + unquoted_all(rest),
        ),
    decreases rest.len(),
{
    if rest.len() == 0 {
        assert(positionals + unquoted_all(rest) =~= positionals);
    } else {
        assert(!is_dashed(rest[0]));
        if is_help(rest[0]) {
            lemma_help_is_dashed(rest[0]);
        }
        assert forall|k: int| 0 <= k < rest.skip(1).len() implies !is_dashed(
            #[trigger] rest.skip(1)[k],
        ) by {
            assert(rest.skip(1)[k] == rest[k + 1]);
        }
        let value = unquoted(rest[0]);
        lemma_scan_plain(schema, usage, rest.skip(1), entries, positionals.push(value));
        assert(positionals.push(value) + unquoted_all(rest.skip(1)) =~= positionals + unquoted_all(
            rest,
        ));
    }
}

/// Where no option is supplied, every alias of every entry resolves to the
/// default of its entry, which for a flag is `"false"`.
pub proof fn law_defaults(schema: Schema, tokens: Seq<Seq<char>>, d: int, i: int)
    requires
        schema.wf(),
        all_plain(arguments_of(tokens)),
        parse(schema, tokens) is Success,
        0 <= d < schema.option_defs.len(),
        0 <= i < schema.option_defs[d].aliases.len(),
    ensures
        lookup(parse(schema, tokens)->Success_0.options, schema.option_defs[d].aliases[i])
            == schema.option_defs[d].default_value,
        schema.option_defs[d].default_value is Some,
        schema.option_defs[d].value_name is None ==> lookup(
            parse(schema, tokens)->Success_0.options,
            schema.option_defs[d].aliases[i],
        ) == Some("false"@),
{
    let usage = schema.usage(program_of(tokens));
    let none = Seq::<(Seq<char>, Seq<char>)>::empty();
    lemma_scan_plain(schema, usage, arguments_of(tokens), none, Seq::empty());
    lemma_backfill(schema, usage, none, 0);
}

/// Whether an entry has a default that its valid values admit.
pub open spec fn has_usable_default(d: OptionSpec) -> bool {
    d.default_value is Some && (d.valid_values.len() > 0 ==> d.valid_values.contains(
        d.default_value->Some_0,
    ))
}

/// Whether every entry of a schema has a default that its valid values
/// admit, so that no option need be supplied.
pub open spec fn all_optional(schema: Schema) -> bool {
    forall|d: int|
        0 <= d < schema.option_defs.len() ==> has_usable_default(#[trigger] schema.option_defs[d])
}

/// Defaulting succeeds for an entry with a usable default whose remaining
/// aliases have no value yet.
pub proof fn lemma_backfill_entry_ok(
    text: Text,
    usage: Seq<char>,
    d: OptionSpec,
    entries: Entries,
    from: int,
)
    requires
        0 <= from,
        distinct(d.aliases),
        has_usable_default(d),
        forall|i: int| from <= i < d.aliases.len() ==> lookup(entries, #[trigger] d.aliases[i]) is None,
    ensures
        backfill_entry(text, usage, d, entries, from) is Ok,
    decreases d.aliases.len() - from,
{
    if from < d.aliases.len() {
        let alias = d.aliases[from];
        let value = d.default_value->Some_0;
        let next = entries.push((alias, value));
        assert(backfill_alias(text, usage, d, entries, alias) == Ok::<Entries, crate::error::Fault>(
            next,
        ));
        assert forall|i: int| from + 1 <= i < d.aliases.len() implies lookup(
            next,
            #[trigger] d.aliases[i],
        ) is None by {
            lemma_lookup_push(entries, alias, value, d.aliases[i]);
        }
        lemma_backfill_entry_ok(text, usage, d, next, from + 1);
    }
}

/// The pass of defaults succeeds where every entry has a usable default
/// and no alias of the entries still to come has a value yet.
pub proof fn lemma_backfill_ok(schema: Schema, usage: Seq<char>, entries: Entries, from: int)
    requires
        schema.wf(),
        all_optional(schema),
        0 <= from,
        forall|d: int, i: int|
            from <= d < schema.option_defs.len() && 0 <= i < schema.option_defs[d].aliases.len()
                ==> lookup(entries, #[trigger] schema.option_defs[d].aliases[i]) is None,
    ensures
        backfill(schema, usage, entries, from) is Ok,
    decreases schema.option_defs.len() - from,
{
    if from < schema.option_defs.len() {
        let def = schema.option_defs[from];
        lemma_entry_distinct(schema, from);
        assert(has_usable_default(def));
        assert forall|i: int| 0 <= i < def.aliases.len() implies lookup(
            entries,
            #[trigger] def.aliases[i],
        ) is None by {
            assert(lookup(entries, schema.option_defs[from].aliases[i]) is None);
        }
        lemma_backfill_entry_ok(schema.text, usage, def, entries, 0);
        let next = backfill_entry(schema.text, usage, def, entries, 0)->Ok_0;
        lemma_backfill_entry(schema.text, usage, def, entries, 0);
        assert(def.aliases.skip(0) =~= def.aliases);
        assert forall|d: int, i: int|
            from + 1 <= d < schema.option_defs.len() && 0 <= i
                < schema.option_defs[d].aliases.len() implies lookup(
            next,
            #[trigger] schema.option_defs[d].aliases[i],
        ) is None by {
            let alias = schema.option_defs[d].aliases[i];
            if def.aliases.contains(alias) {
                let j = choose|j: int| 0 <= j < def.aliases.len() && def.aliases[j] == alias;
                assert(schema.option_defs[from].aliases[j] == schema.option_defs[d].aliases[i]);
            }
            assert(lookup(entries, schema.option_defs[d].aliases[i]) is None);
        }
        lemma_backfill_ok(schema, usage, next, from + 1);
    }
}

/// With tokens that are all positional, a parse fails with the count
/// error, which names the declared and the supplied number, where the two
/// numbers differ. Where they are equal and no entry requires an option,
/// it succeeds, and the command line holds as many arguments as were
/// declared: each name with the token at its position.
pub proof fn law_argument_count(schema: Schema, tokens: Seq<Seq<char>>)
    requires
        schema.wf(),
        all_plain(arguments_of(tokens)),
    ensures
        arguments_of(tokens).len() != schema.argument_names.len() ==> parse(schema, tokens)
            == Outcome::Failure(
            count_fault(
                schema.text,
                schema.usage(program_of(tokens)),
                schema.argument_names.len(),
                arguments_of(tokens).len(),
            ),
        ),
        arguments_of(tokens).len() == schema.argument_names.len() && all_optional(schema) ==> parse(
            schema,
            tokens,
        ) is Success && parse(schema, tokens)->Success_0.arguments.len()
            == schema.argument_names.len() && parse(schema, tokens)->Success_0.arguments == zipped(
            schema.argument_names,
            unquoted_all(arguments_of(tokens)),
        ),
{
    let usage = schema.usage(program_of(tokens));
    let none = Seq::<(Seq<char>, Seq<char>)>::empty();
    let empty = Seq::<Seq<char>>::empty();
    lemma_scan_plain(schema, usage, arguments_of(tokens), none, empty);
    assert(empty + unquoted_all(arguments_of(tokens)) =~= unquoted_all(arguments_of(tokens)));
    if all_optional(schema) {
        lemma_backfill_ok(schema, usage, none, 0);
    }
}

/// A definition with nothing but the help flag and N argument names takes
/// exactly N positional tokens: with N it succeeds and holds N arguments,
/// with any other number it fails with the count error that names both
/// numbers.
pub proof fn law_round_trip(text: Text, names: Seq<Seq<char>>, tokens: Seq<Seq<char>>)
    requires
        all_plain(arguments_of(tokens)),
    ensures
        ({
            let schema = Schema { argument_names: names, ..Schema::initial(text) };
            let outcome = parse(schema, tokens);
            if arguments_of(tokens).len() == names.len() {
                outcome is Success && outcome->Success_0.arguments.len() == names.len()
            } else {
                outcome == Outcome::Failure(
                    count_fault(
                        text,
                        schema.usage(program_of(tokens)),
                        names.len(),
                        arguments_of(tokens).len(),
                    ),
                )
            }
        }),
{
    let schema = Schema { argument_names: names, ..Schema::initial(text) };
    lemma_initial_wf(text);
    assert(schema.option_defs == Schema::initial(text).option_defs);
    assert(schema.wf());
    assert(schema.option_defs[0].valid_values.len() == 0);
    assert(all_optional(schema));
    law_argument_count(schema, tokens);
}

/// A well-formed alias starts with a dash.
pub proof fn lemma_alias_is_dashed(alias: Seq<char>)
    requires
        alias_fault(alias) is None,
    ensures
        is_dashed(alias),
{
    reveal_strlit("-");
    if alias.len() > 0 && "-"@.contains(alias[0]) {
        let k = choose|k: int| 0 <= k < "-"@.len() && "-"@[k] == alias[0];
    }
}

/// In a well-formed schema only the aliases of the first entry ask for
/// help.
pub proof fn lemma_help_is_first(schema: Schema, d: int, i: int)
    requires
        schema.wf(),
        0 <= d < schema.option_defs.len(),
        0 <= i < schema.option_defs[d].aliases.len(),
    ensures
        is_help(schema.option_defs[d].aliases[i]) <==> d == 0,
{
    let alias = schema.option_defs[d].aliases[i];
    assert(schema.option_defs[0].aliases[0] == "-h"@);
    assert(schema.option_defs[0].aliases[1] == "--help"@);
    if is_help(alias) {
        if alias == "-h"@ {
            assert(schema.option_defs[d].aliases[i] == schema.option_defs[0].aliases[0]);
        } else {
            assert(schema.option_defs[d].aliases[i] == schema.option_defs[0].aliases[1]);
        }
    }
    if d == 0 {
        assert(i == 0 || i == 1);
    }
}

/// Two aliases of one entry do the same as tokens, whatever was recorded
/// before, where the entry is a flag or a token follows.
pub proof fn law_alias_step(
    schema: Schema,
    usage: Seq<char>,
    entries: Entries,
    d: int,
    i: int,
    j: int,
    next: Option<Seq<char>>,
)
    requires
        schema.wf(),
        0 <= d < schema.option_defs.len(),
        0 <= i < schema.option_defs[d].aliases.len(),
        0 <= j < schema.option_defs[d].aliases.len(),
        schema.option_defs[d].value_name is Some ==> next is Some,
    ensures
        resolve_option(schema, usage, entries, schema.option_defs[d].aliases[i], next)
            == resolve_option(schema, usage, entries, schema.option_defs[d].aliases[j], next),
{
    lemma_find_alias(schema, d, i);
    lemma_find_alias(schema, d, j);
}

/// A cluster that is recorded keeps every value that was recorded before.
pub proof fn lemma_cluster_keeps(
    schema: Schema,
    usage: Seq<char>,
    entries: Entries,
    chars: Seq<char>,
    key: Seq<char>,
)
    requires
        record_cluster(schema, usage, entries, chars) is Ok,
        lookup(entries, key) is Some,
    ensures
        lookup(record_cluster(schema, usage, entries, chars)->Ok_0, key) == lookup(entries, key),
    decreases chars.len(),
{
    if chars.len() > 0 {
        let flag = flag_alias(chars[0]);
        let d = find_option(schema.option_defs, flag)->Some_0;
        let def = schema.option_defs[d];
        let e = record_all(entries, def.aliases, "true"@)->Ok_0;
        lemma_record_all(entries, def.aliases, "true"@);
        if def.aliases.contains(key) {
            let k = choose|k: int| 0 <= k < def.aliases.len() && def.aliases[k] == key;
            assert(lookup(entries, def.aliases[k]) is None);
        }
        lemma_cluster_keeps(schema, usage, e, chars.skip(1), key);
    }
}

/// A pass that reaches the end keeps every value that was recorded
/// before it began.
pub proof fn lemma_scan_keeps(
    schema: Schema,
    usage: Seq<char>,
    rest: Seq<Seq<char>>,
    skip: bool,
    entries: Entries,
    positionals: Seq<Seq<char>>,
    key: Seq<char>,
)
    requires
        scan(schema, usage, rest, skip, entries, positionals) is Done,
        lookup(entries, key) is Some,
    ensures
        lookup(scan(schema, usage, rest, skip, entries, positionals)->Done_0, key) == lookup(
            entries,
            key,
        ),
    decreases rest.len(),
{
    if rest.len() == 0 {
    } else if skip {
        lemma_scan_keeps(schema, usage, rest.skip(1), false, entries, positionals, key);
    } else if is_dashed(rest[0]) {
        let step = resolve_option(schema, usage, entries, rest[0], lookahead(rest));
        let e = step->Ok_0.0;
        match find_option(schema.option_defs, rest[0]) {
            Some(d) => {
                let def = schema.option_defs[d];
                let value = if def.value_name is None {
                    "true"@
                } else {
                    lookahead(rest)->Some_0
                };
                lemma_record_all(entries, def.aliases, value);
                if def.aliases.contains(key) {
                    let k = choose|k: int| 0 <= k < def.aliases.len() && def.aliases[k] == key;
                    assert(lookup(entries, def.aliases[k]) is None);
                }
            },
            None => {
                lemma_cluster_keeps(schema, usage, entries, rest[0].skip(1), key);
            },
        }
        lemma_scan_keeps(schema, usage, rest.skip(1), step->Ok_0.1, e, positionals, key);
    } else {
        lemma_scan_keeps(
            schema,
            usage,
            rest.skip(1),
            false,
            entries,
            positionals.push(unquoted(rest[0])),
            key,
        );
    }
}

/// The tokens that supply an entry through one of its aliases: the alias
/// alone for a flag, the alias and the value for an option.
pub open spec fn supplied(d: OptionSpec, alias: Seq<char>, value: Seq<char>) -> Seq<Seq<char>> {
    if d.value_name is Some {
        seq![alias, value]
    } else {
        seq![alias]
    }
}

/// The value that these tokens give the entry.
pub open spec fn supplied_value(d: OptionSpec, value: Seq<char>) -> Seq<char> {
    if d.value_name is Some {
        value
    } else {
        "true"@
    }
}

/// Whether the token behind `pre` is taken as the value of an option, so
/// that it is no option itself. `skip` says that the first token of `pre`
/// is taken so.
pub open spec fn awaits_value(schema: Schema, pre: Seq<Seq<char>>, skip: bool) -> bool
    decreases pre.len(),
{
    if pre.len() == 0 {
        skip
    } else if skip {
        awaits_value(schema, pre.skip(1), false)
    } else if is_dashed(pre[0]) {
        awaits_value(schema, pre.skip(1), takes_value(schema, pre[0]))
    } else {
        awaits_value(schema, pre.skip(1), false)
    }
}

/// Wherever among the tokens an entry is supplied, as long as its alias is
/// not the value of the option before it, one alias does what another
/// does: the pass ends in the same way, and where it reaches the end, the
/// supplied value is recorded under both.
pub proof fn lemma_alias_anywhere(
    schema: Schema,
    usage: Seq<char>,
    pre: Seq<Seq<char>>,
    skip: bool,
    entries: Entries,
    positionals: Seq<Seq<char>>,
    d: int,
    i: int,
    j: int,
    value: Seq<char>,
    tail: Seq<Seq<char>>,
)
    requires
        schema.wf(),
        0 <= d < schema.option_defs.len(),
        0 <= i < schema.option_defs[d].aliases.len(),
        0 <= j < schema.option_defs[d].aliases.len(),
        !awaits_value(schema, pre, skip),
    ensures
        scan(
            schema,
            usage,
            pre + supplied(schema.option_defs[d], schema.option_defs[d].aliases[i], value) + tail,
            skip,
            entries,
            positionals,
        ) == scan(
            schema,
            usage,
            pre + supplied(schema.option_defs[d], schema.option_defs[d].aliases[j], value) + tail,
            skip,
            entries,
            positionals,
        ),
        scan(
            schema,
            usage,
            pre + supplied(schema.option_defs[d], schema.option_defs[d].aliases[i], value) + tail,
            skip,
            entries,
            positionals,
        ) matches Scan::Done(out, _) ==> lookup(out, schema.option_defs[d].aliases[i]) == Some(
            supplied_value(schema.option_defs[d], value),
        ) && lookup(out, schema.option_defs[d].aliases[j]) == Some(
            supplied_value(schema.option_defs[d], value),
        ),
    decreases pre.len(),
{
    let def = schema.option_defs[d];
    let a = def.aliases[i];
    let b = def.aliases[j];
    let ra = pre + supplied(def, a, value) + tail;
    let rb = pre + supplied(def, b, value) + tail;
    if pre.len() == 0 {
        assert(ra =~= supplied(def, a, value) + tail);
        assert(rb =~= supplied(def, b, value) + tail);
        assert(ra[0] == a);
        assert(rb[0] == b);
        lemma_help_is_first(schema, d, i);
        lemma_help_is_first(schema, d, j);
        if d != 0 {
            lemma_alias_is_dashed(a);
            lemma_alias_is_dashed(b);
            lemma_find_alias(schema, d, i);
            lemma_find_alias(schema, d, j);
            assert(ra.skip(1) =~= rb.skip(1));
            assert(lookahead(ra) == lookahead(rb));
            let v = supplied_value(def, value);
            let step = resolve_option(schema, usage, entries, a, lookahead(ra));
            assert(step == resolve_option(schema, usage, entries, b, lookahead(rb)));
            if scan(schema, usage, ra, skip, entries, positionals) is Done {
                let e = step->Ok_0.0;
                let taken = step->Ok_0.1;
                lemma_record_all(entries, def.aliases, v);
                assert(lookup(e, a) == Some(v));
                assert(lookup(e, b) == Some(v));
                lemma_scan_keeps(schema, usage, ra.skip(1), taken, e, positionals, a);
                lemma_scan_keeps(schema, usage, ra.skip(1), taken, e, positionals, b);
            }
        }
    } else {
        let t = pre[0];
        assert(ra[0] == t);
        assert(rb[0] == t);
        assert(ra.skip(1) =~= pre.skip(1) + supplied(def, a, value) + tail);
        assert(rb.skip(1) =~= pre.skip(1) + supplied(def, b, value) + tail);
        if is_help(t) {
        } else if skip {
            lemma_alias_anywhere(
                schema,
                usage,
                pre.skip(1),
                false,
                entries,
                positionals,
                d,
                i,
                j,
                value,
                tail,
            );
        } else if is_dashed(t) {
            if pre.len() > 1 {
                assert(ra[1] == pre[1]);
                assert(rb[1] == pre[1]);
            } else {
                assert(pre.skip(1).len() == 0);
                assert(awaits_value(schema, pre.skip(1), takes_value(schema, t)) == takes_value(
                    schema,
                    t,
                ));
                assert(!takes_value(schema, t));
            }
            let step = resolve_option(schema, usage, entries, t, lookahead(ra));
            assert(step == resolve_option(schema, usage, entries, t, lookahead(rb)));
            match step {
                Ok((e, taken)) => {
                    assert(taken == takes_value(schema, t));
                    lemma_alias_anywhere(
                        schema,
                        usage,
                        pre.skip(1),
                        taken,
                        e,
                        positionals,
                        d,
                        i,
                        j,
                        value,
                        tail,
                    );
                },
                Err(_) => {},
            }
        } else {
            lemma_alias_anywhere(
                schema,
                usage,
                pre.skip(1),
                false,
                entries,
                positionals.push(unquoted(t)),
                d,
                i,
                j,
                value,
                tail,
            );
        }
    }
}

/// Supplying an entry through one alias or through another, anywhere among
/// the tokens where the alias is not itself the value of the option before
/// it, gives the same outcome; where the parse succeeds, the supplied
/// value is read through either alias.
pub proof fn law_alias_equivalence(
    schema: Schema,
    program: Seq<char>,
    pre: Seq<Seq<char>>,
    d: int,
    i: int,
    j: int,
    value: Seq<char>,
    tail: Seq<Seq<char>>,
)
    requires
        schema.wf(),
        0 <= d < schema.option_defs.len(),
        0 <= i < schema.option_defs[d].aliases.len(),
        0 <= j < schema.option_defs[d].aliases.len(),
        !awaits_value(schema, pre, false),
    ensures
        parse(
            schema,
            seq![program] + pre + supplied(
                schema.option_defs[d],
                schema.option_defs[d].aliases[i],
                value,
            ) + tail,
        ) == parse(
            schema,
            seq![program] + pre + supplied(
                schema.option_defs[d],
                schema.option_defs[d].aliases[j],
                value,
            ) + tail,
        ),
        parse(
            schema,
            seq![program] + pre + supplied(
                schema.option_defs[d],
                schema.option_defs[d].aliases[i],
                value,
            ) + tail,
        ) matches Outcome::Success(r) ==> lookup(r.options, schema.option_defs[d].aliases[i])
            == Some(supplied_value(schema.option_defs[d], value)) && lookup(
            r.options,
            schema.option_defs[d].aliases[j],
        ) == Some(supplied_value(schema.option_defs[d], value)),
{
    let def = schema.option_defs[d];
    let a = def.aliases[i];
    let b = def.aliases[j];
    let ta = seq![program] + pre + supplied(def, a, value) + tail;
    let tb = seq![program] + pre + supplied(def, b, value) + tail;
    let ra = pre + supplied(def, a, value) + tail;
    let rb = pre + supplied(def, b, value) + tail;
    let usage = schema.usage(program);
    let none = Seq::<(Seq<char>, Seq<char>)>::empty();
    let empty = Seq::<Seq<char>>::empty();
    assert(arguments_of(ta) =~= ra);
    assert(arguments_of(tb) =~= rb);
    assert(program_of(ta) == program);
    assert(program_of(tb) == program);
    lemma_alias_anywhere(schema, usage, pre, false, none, empty, d, i, j, value, tail);
    if parse(schema, ta) is Success {
        let scanned = scan(schema, usage, ra, false, none, empty);
        lemma_backfill(schema, usage, scanned->Done_0, 0);
    }
}

/// Whether `token` is an alias of a flag.
pub open spec fn is_flag(schema: Schema, token: Seq<char>) -> bool {
    match find_option(schema.option_defs, token) {
        Some(d) => schema.option_defs[d].value_name is None,
        None => false,
    }
}

/// Whether every character names a registered flag other than the help
/// flag.
pub open spec fn all_flags(schema: Schema, chars: Seq<char>) -> bool {
    forall|k: int|
        0 <= k < chars.len() ==> is_flag(schema, flag_alias(#[trigger] chars[k])) && chars[k] != 'h'
}

/// The flags of a cluster as tokens of their own.
pub open spec fn singles(chars: Seq<char>) -> Seq<Seq<char>> {
    Seq::new(chars.len(), |k: int| flag_alias(chars[k]))
}

/// The flags in one token.
pub open spec fn cluster_token(chars: Seq<char>) -> Seq<char> {
    "-"@ + chars
}

/// Flags given as tokens of their own do what their cluster does: where
/// the cluster is recorded, the pass goes on from the same entries; where
/// it is not, the pass fails.
pub proof fn lemma_cluster_scan(
    schema: Schema,
    usage: Seq<char>,
    chars: Seq<char>,
    tail: Seq<Seq<char>>,
    entries: Entries,
    positionals: Seq<Seq<char>>,
)
    requires
        all_flags(schema, chars),
    ensures
        match record_cluster(schema, usage, entries, chars) {
            Ok(e) => scan(schema, usage, singles(chars) + tail, false, entries, positionals)
                == scan(schema, usage, tail, false, e, positionals),
            Err(_) => scan(
                schema,
                usage,
                singles(chars) + tail,
                false,
                entries,
                positionals,
            ) is Failed,
        },
    decreases chars.len(),
{
    let rest = singles(chars) + tail;
    if chars.len() == 0 {
        assert(rest =~= tail);
    } else {
        let flag = flag_alias(chars[0]);
        assert(rest[0] == flag);
        reveal_strlit("-");
        reveal_strlit("-h");
        reveal_strlit("--help");
        assert(flag.len() == 2 && flag[0] == '-' && flag[1] == chars[0]);
        assert(!is_help(flag)) by {
            if flag == "-h"@ {
                assert(flag[1] == 'h');
            }
        }
        assert(is_dashed(flag));
        let d = find_option(schema.option_defs, flag)->Some_0;
        let def = schema.option_defs[d];
        lemma_find_from(schema.option_defs, flag, 0);
        if lookup(entries, flag) is Some {
            lemma_record_all_taken(entries, def.aliases, "true"@, flag);
        }
        assert(rest.skip(1) =~= singles(chars.skip(1)) + tail);
        assert forall|k: int| 0 <= k < chars.skip(1).len() implies is_flag(
            schema,
            flag_alias(#[trigger] chars.skip(1)[k]),
        ) && chars.skip(1)[k] != 'h' by {
            assert(chars.skip(1)[k] == chars[k + 1]);
        }
        match record_option(schema.text, usage, entries, def, "true"@) {
            Ok(e) => {
                lemma_cluster_scan(schema, usage, chars.skip(1), tail, e, positionals);
            },
            Err(_) => {},
        }
    }
}

/// A cluster of flags does what the same flags do as tokens of their own:
/// one parse succeeds where the other does, and then both give the same
/// command line.
pub proof fn law_cluster_equals_separate_flags(
    schema: Schema,
    program: Seq<char>,
    chars: Seq<char>,
    tail: Seq<Seq<char>>,
)
    requires
        schema.wf(),
        chars.len() >= 2,
        all_flags(schema, chars),
    ensures
        parse(schema, seq![program, cluster_token(chars)] + tail) is Success <==> parse(
            schema,
            seq![program] + singles(chars) + tail,
        ) is Success,
        parse(schema, seq![program, cluster_token(chars)] + tail) is Success ==> parse(
            schema,
            seq![program, cluster_token(chars)] + tail,
        ) == parse(schema, seq![program] + singles(chars) + tail),
{
    let cluster = cluster_token(chars);
    let t1 = seq![program, cluster] + tail;
    let t2 = seq![program] + singles(chars) + tail;
    let r1 = seq![cluster] + tail;
    let r2 = singles(chars) + tail;
    let usage = schema.usage(program);
    let none = Seq::<(Seq<char>, Seq<char>)>::empty();
    let empty = Seq::<Seq<char>>::empty();
    assert(arguments_of(t1) =~= r1);
    assert(arguments_of(t2) =~= r2);
    assert(program_of(t1) == program);
    assert(program_of(t2) == program);
    reveal_strlit("-");
    reveal_strlit("-h");
    reveal_strlit("--help");
    assert(cluster.len() == chars.len() + 1);
    assert(cluster[0] == '-');
    assert(cluster[1] == chars[0]);
    assert("-"@.contains('-')) by {
        assert("-"@[0] == '-');
    }
    // The first character is no dash: `--` is no alias.
    if chars[0] == '-' {
        let double = flag_alias('-');
        let d = find_option(schema.option_defs, double)->Some_0;
        lemma_find_from(schema.option_defs, double, 0);
        let k = choose|k: int|
            0 <= k < schema.option_defs[d].aliases.len() && schema.option_defs[d].aliases[k]
                == double;
        assert(alias_fault(schema.option_defs[d].aliases[k]) is None);
        assert(double.len() == 2 && double[0] == '-' && double[1] == '-');
        assert(prefix_count(double, "-"@) == 2) by {
            reveal_with_fuel(prefix_count, 4);
            assert(double.skip(1)[0] == '-');
            assert(double.skip(1).skip(1).len() == 0);
        }
        assert(false);
    }
    assert(prefix_count(cluster, "-"@) == 1) by {
        reveal_with_fuel(prefix_count, 3);
        assert(cluster.skip(1)[0] == chars[0]);
        if "-"@.contains(chars[0]) {
            let k = choose|k: int| 0 <= k < "-"@.len() && "-"@[k] == chars[0];
        }
    }
    assert(alias_fault(cluster) is Some);
    lemma_find_from(schema.option_defs, cluster, 0);
    if find_option(schema.option_defs, cluster) is Some {
        let d = find_option(schema.option_defs, cluster)->Some_0;
        let k = choose|k: int|
            0 <= k < schema.option_defs[d].aliases.len() && schema.option_defs[d].aliases[k]
                == cluster;
        assert(alias_fault(schema.option_defs[d].aliases[k]) is None);
    }
    assert(!is_help(cluster)) by {
        if cluster == "--help"@ {
            assert(cluster[1] == '-');
        }
    }
    assert(is_dashed(cluster));
    assert(is_cluster(cluster));
    assert(cluster.skip(1) =~= chars);
    assert(r1.skip(1) =~= tail);
    assert(r1[0] == cluster);
    lemma_cluster_scan(schema, usage, chars, tail, none, empty);
}

/// Whether no key is recorded twice.
pub open spec fn unique_keys(entries: Entries) -> bool {
    forall|i: int, j: int|
        0 <= i < j < entries.len() ==> (#[trigger] entries[i]).0 != (#[trigger] entries[j]).0
}

/// A key without a value is the key of no entry.
pub proof fn lemma_lookup_none(entries: Entries, key: Seq<char>)
    requires
        lookup(entries, key) is None,
    ensures
        forall|i: int| 0 <= i < entries.len() ==> (#[trigger] entries[i]).0 != key,
    decreases entries.len(),
{
    if entries.len() > 0 {
        lemma_lookup_none(entries.drop_last(), key);
        assert forall|i: int| 0 <= i < entries.len() implies (#[trigger] entries[i]).0 != key by {
            if i < entries.len() - 1 {
                assert(entries.drop_last()[i] == entries[i]);
            }
        }
    }
}

/// Recording a key that has no value keeps the keys unique.
pub proof fn lemma_push_unique(entries: Entries, key: Seq<char>, value: Seq<char>)
    requires
        unique_keys(entries),
        lookup(entries, key) is None,
    ensures
        unique_keys(entries.push((key, value))),
{
    lemma_lookup_none(entries, key);
}

/// Recording under a list of aliases keeps the keys unique.
pub proof fn lemma_record_all_unique(entries: Entries, aliases: Seq<Seq<char>>, value: Seq<char>)
    requires
        unique_keys(entries),
        record_all(entries, aliases, value) is Ok,
    ensures
        unique_keys(record_all(entries, aliases, value)->Ok_0),
    decreases aliases.len(),
{
    if aliases.len() > 0 {
        lemma_push_unique(entries, aliases[0], value);
        lemma_record_all_unique(entries.push((aliases[0], value)), aliases.skip(1), value);
    }
}

/// Recording a cluster keeps the keys unique.
pub proof fn lemma_cluster_unique(
    schema: Schema,
    usage: Seq<char>,
    entries: Entries,
    chars: Seq<char>,
)
    requires
        unique_keys(entries),
        record_cluster(schema, usage, entries, chars) is Ok,
    ensures
        unique_keys(record_cluster(schema, usage, entries, chars)->Ok_0),
    decreases chars.len(),
{
    if chars.len() > 0 {
        let d = find_option(schema.option_defs, flag_alias(chars[0]))->Some_0;
        let def = schema.option_defs[d];
        lemma_record_all_unique(entries, def.aliases, "true"@);
        lemma_cluster_unique(
            schema,
            usage,
            record_all(entries, def.aliases, "true"@)->Ok_0,
            chars.skip(1),
        );
    }
}

/// A pass that reaches the end keeps the keys unique.
pub proof fn lemma_scan_unique(
    schema: Schema,
    usage: Seq<char>,
    rest: Seq<Seq<char>>,
    skip: bool,
    entries: Entries,
    positionals: Seq<Seq<char>>,
)
    requires
        unique_keys(entries),
        scan(schema, usage, rest, skip, entries, positionals) is Done,
    ensures
        unique_keys(scan(schema, usage, rest, skip, entries, positionals)->Done_0),
    decreases rest.len(),
{
    if rest.len() == 0 {
    } else if skip {
        lemma_scan_unique(schema, usage, rest.skip(1), false, entries, positionals);
    } else if is_dashed(rest[0]) {
        let step = resolve_option(schema, usage, entries, rest[0], lookahead(rest));
        match find_option(schema.option_defs, rest[0]) {
            Some(d) => {
                let def = schema.option_defs[d];
                let value = if def.value_name is None {
                    "true"@
                } else {
                    lookahead(rest)->Some_0
                };
                lemma_record_all_unique(entries, def.aliases, value);
            },
            None => {
                lemma_cluster_unique(schema, usage, entries, rest[0].skip(1));
            },
        }
        lemma_scan_unique(schema, usage, rest.skip(1), step->Ok_0.1, step->Ok_0.0, positionals);
    } else {
        lemma_scan_unique(
            schema,
            usage,
            rest.skip(1),
            false,
            entries,
            positionals.push(unquoted(rest[0])),
        );
    }
}

/// The defaulting of the aliases of an entry keeps the keys unique.
pub proof fn lemma_backfill_entry_unique(
    text: Text,
    usage: Seq<char>,
    d: OptionSpec,
    entries: Entries,
    from: int,
)
    requires
        0 <= from,
        unique_keys(entries),
        backfill_entry(text, usage, d, entries, from) is Ok,
    ensures
        unique_keys(backfill_entry(text, usage, d, entries, from)->Ok_0),
    decreases d.aliases.len() - from,
{
    if from < d.aliases.len() {
        let alias = d.aliases[from];
        if lookup(entries, alias) is None {
            lemma_push_unique(entries, alias, d.default_value->Some_0);
        }
        lemma_backfill_entry_unique(
            text,
            usage,
            d,
            backfill_alias(text, usage, d, entries, alias)->Ok_0,
            from + 1,
        );
    }
}

/// The pass of defaults keeps the keys unique.
pub proof fn lemma_backfill_unique(schema: Schema, usage: Seq<char>, entries: Entries, from: int)
    requires
        0 <= from,
        unique_keys(entries),
        backfill(schema, usage, entries, from) is Ok,
    ensures
        unique_keys(backfill(schema, usage, entries, from)->Ok_0),
    decreases schema.option_defs.len() - from,
{
    if from < schema.option_defs.len() {
        let def = schema.option_defs[from];
        lemma_backfill_entry_unique(schema.text, usage, def, entries, 0);
        lemma_backfill_unique(
            schema,
            usage,
            backfill_entry(schema.text, usage, def, entries, 0)->Ok_0,
            from + 1,
        );
    }
}

/// The options of a successful parse are a mapping: no alias is recorded
/// twice, so that their number is the number of the resolved aliases.
pub proof fn law_options_are_a_mapping(schema: Schema, tokens: Seq<Seq<char>>)
    requires
        parse(schema, tokens) is Success,
    ensures
        unique_keys(parse(schema, tokens)->Success_0.options),
{
    let usage = schema.usage(program_of(tokens));
    let none = Seq::<(Seq<char>, Seq<char>)>::empty();
    lemma_scan_unique(schema, usage, arguments_of(tokens), false, none, Seq::empty());
    let scanned = scan(schema, usage, arguments_of(tokens), false, none, Seq::empty());
    lemma_backfill_unique(schema, usage, scanned->Done_0, 0);
}

} // verus!
