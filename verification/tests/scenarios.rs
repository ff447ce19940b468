use cl_parse::command_line::{converted, find_value};
use cl_parse::strings::{decimal_string, join, key_not_greater, pad_left, sort_by_key, unquote};
use cl_parse::{CommandLine, CommandLineDef, Error, ErrorKind, ParseOutcome, Text};

fn args(tokens: &[&str]) -> Vec<String> {
    tokens.iter().map(|t| t.to_string()).collect()
}

fn resolved(outcome: ParseOutcome) -> CommandLine {
    match outcome {
        ParseOutcome::Success(cl) => cl,
        other => panic!("{:?}", other),
    }
}

fn failure(outcome: ParseOutcome) -> Error {
    match outcome {
        ParseOutcome::Failure(e) => e,
        other => panic!("{:?}", other),
    }
}

fn help(outcome: ParseOutcome) -> String {
    match outcome {
        ParseOutcome::HelpRequested(usage) => usage,
        other => panic!("{:?}", other),
    }
}

#[test]
fn integration_tests_should_panic_for_bad_long_option() {
    let mut def = CommandLineDef::new();
    let e = def.add_flag(vec!["---------"], "A bad long option").unwrap_err();
    assert_eq!(e.kind, ErrorKind::InvalidLongName);
    assert_eq!(e.message, "Invalid option name '---------'. Long option names must start with '--' and be greater than 1 character. e.g. --lo");
}

#[test]
fn integration_tests_should_panic_for_bad_long_option_1() {
    let mut def = CommandLineDef::new();
    let e = def.add_flag(vec!["---long"], "A bad long option").unwrap_err();
    assert_eq!(e.kind, ErrorKind::InvalidLongName);
    assert_eq!(e.message, "Invalid option name '---long'. Long option names must start with '--' and be greater than 1 character. e.g. --lo");
}

#[test]
fn integration_tests_should_panic_for_bad_long_option_2() {
    let mut def = CommandLineDef::new();
    let e = def.add_flag(vec!["--l"], "A bad long option").unwrap_err();
    assert_eq!(e.kind, ErrorKind::InvalidLongName);
    assert_eq!(e.message, "Invalid option name '--l'. Long option names must start with '--' and be greater than 1 character. e.g. --lo");
}

#[test]
fn integration_tests_should_panic_for_bad_short_option() {
    let mut def = CommandLineDef::new();
    let e = def.add_flag(vec!["-"], "A bad short option").unwrap_err();
    assert_eq!(e.kind, ErrorKind::InvalidShortName);
    assert_eq!(e.message, "Invalid option name '-'. Short option names must start with '-' and be 1 character. e.g. -f");
}

#[test]
fn integration_tests_should_panic_for_bad_short_option_1() {
    let mut def = CommandLineDef::new();
    let e = def.add_flag(vec!["-short"], "A bad short option").unwrap_err();
    assert_eq!(e.kind, ErrorKind::InvalidShortName);
    assert_eq!(e.message, "Invalid option name '-short'. Short option names must start with '-' and be 1 character. e.g. -f");
}

#[test]
fn integration_tests_should_panic_for_bad_option() {
    let mut def = CommandLineDef::new();
    let e = def.add_flag(vec!["opt"], "A bad option").unwrap_err();
    assert_eq!(e.kind, ErrorKind::InvalidName);
    assert_eq!(e.message, "Invalid option name 'opt'. Options must start with '-' or '--'");
}

#[test]
fn integration_tests_should_panic_for_missing_required_option() {
    let mut def = CommandLineDef::new();
    def.add_option(vec!["--increment"], Some("numeric value"), None, "A number to increment by").unwrap();
    def.add_flag(vec!["-c"], "Another boolean value").unwrap();
    let e = failure(def.parse(args(&["test", "-c"])));
    assert_eq!(e.kind, ErrorKind::OptionRequired);
    assert!(e.message.contains("Option '--increment' is required\nUsage: test [-ch] --increment <numeric value>"));
}

#[test]
fn integration_tests_should_panic_for_option_undefined() {
    let def = CommandLineDef::new();
    let e = failure(def.parse(args(&["test", "-c"])));
    assert_eq!(e.kind, ErrorKind::OptionNotDefined);
    assert!(e.message.contains("Option '-c' not defined\nUsage: test [-h]"));
}

#[test]
fn integration_tests_should_panic_for_option_redefined() {
    let mut def = CommandLineDef::new();
    def.add_option(vec!["-n", "--num"], Some("num"), None, "A numeric value").unwrap();
    let e = def
        .add_option(vec!["--num", "--number"], Some("number"), None, "A numeric value")
        .unwrap_err();
    assert_eq!(e.kind, ErrorKind::OptionRedefined);
    assert_eq!(e.message, "Option '--num' cannot be redefined");
}

#[test]
fn integration_tests_should_panic_for_missing_value() {
    let mut def = CommandLineDef::new();
    def.add_option(vec!["--increment"], Some("numeric value"), None, "A number to increment by").unwrap();
    let e = failure(def.parse(args(&["test", "--increment"])));
    assert_eq!(e.kind, ErrorKind::OptionValueRequired);
    assert!(e.message.contains("A value is required for option '--increment'\nUsage: test [-h] --increment <numeric value>"));
}

#[test]
fn integration_tests_should_panic_for_too_many_args() {
    let mut def = CommandLineDef::new();
    def.add_argument("arg-1");
    let e = failure(def.parse(args(&["test", "arg1", "arg2"])));
    assert_eq!(e.kind, ErrorKind::ArgumentCount);
    assert!(e.message.contains("Defined 1 arguments, found 2 arguments\nUsage: test [-h] <arg-1>"));
}

#[test]
fn integration_tests_should_panic_for_too_few_args() {
    let mut def = CommandLineDef::new();
    def.add_argument("arg-1");
    def.add_argument("arg-2");
    def.add_argument("arg-3");
    let e = failure(def.parse(args(&["test", "arg1", "arg2"])));
    assert_eq!(e.kind, ErrorKind::ArgumentCount);
    assert!(e.message.contains("Defined 3 arguments, found 2 arguments\nUsage: test [-h] <arg-1> <arg-2> <arg-3>"));
}

#[test]
fn integration_tests_should_panic_for_repeated_flags() {
    let mut def = CommandLineDef::new();
    def.add_flag(vec!["-m"], "The m flag").unwrap();
    let e = failure(def.parse(args(&["test", "-m", "-m"])));
    assert_eq!(e.kind, ErrorKind::OptionMultipleFound);
    assert!(e.message.contains("Multiple '-m' options or aliases on commandline\nUsage: test [-hm]"));
}

#[test]
fn integration_tests_should_panic_for_repeated_concat_flags() {
    let mut def = CommandLineDef::new();
    def.add_flag(vec!["-m"], "The m flag").unwrap();
    def.add_flag(vec!["-b"], "The b flag").unwrap();
    let e = failure(def.parse(args(&["test", "-bmb"])));
    assert_eq!(e.kind, ErrorKind::OptionMultipleFlags);
    assert!(e.message.contains("Multiple '-b' options or aliases on commandline\nUsage: test [-bhm]"));
}

#[test]
fn integration_tests_should_panic_for_not_a_concat_flag() {
    let mut def = CommandLineDef::new();
    def.add_option(vec!["-b", "--batch"], Some("batch size"), Some("10"), "Batch Size").unwrap();
    def.add_flag(vec!["-m"], "The m flag").unwrap();
    let e = failure(def.parse(args(&["test", "-mb"])));
    assert_eq!(e.kind, ErrorKind::OptionInvalidFlag);
    assert!(e.message.contains("Option '-b' is not a flag\nUsage: test [-hm] [-b <batch size>]"));
}

#[test]
fn should_panic_for_redefined_alias() {
    let mut def = CommandLineDef::new();
    def.add_option(vec!["--file", "-f"], Some("path"), None, "path").unwrap();
    let e = failure(def.parse(args(&["test", "-f", "path", "--file", "new_path"])));
    assert_eq!(e.kind, ErrorKind::OptionMultipleFound);
    assert!(e.message.contains("Multiple '-f' options or aliases on commandline\nUsage: test [-h] -f <path>"));
}

fn help_schema() -> CommandLineDef {
    let mut def = CommandLineDef::new();
    def.add_flag(vec!["-b", "--boolean"], "A boolean value").unwrap();
    def.add_flag(vec!["-f", "--faux"], "Another boolean value").unwrap();
    def.add_option(vec!["-n", "--num"], Some("num"), None, "A required numeric value").unwrap();
    def.add_argument("arg-0");
    def.add_argument("arg-1");
    def.add_argument("arg-2");
    def
}

#[test]
fn should_display_h_help() {
    let def = help_schema();
    let usage = help(def.parse(args(&["test", "-b", "--faux", "-h", "-n", "-1"])));
    assert_eq!(usage, "Usage: test [-bfh] -n <num> <arg-0> <arg-1> <arg-2>\n     -h, --help : Display usage message\n  -b, --boolean : A boolean value\n     -f, --faux : Another boolean value\n-n, --num <num> : A required numeric value");
}

#[test]
fn should_display_help_help() {
    let def = help_schema();
    let e = failure(def.parse(args(&["test", "-b", "-help", "--faux", "-n", "-1"])));
    assert!(e.message.contains("Usage: test [-bfh] -n <num> <arg-0> <arg-1> <arg-2>\n     -h, --help : Display usage message\n  -b, --boolean : A boolean value\n     -f, --faux : Another boolean value\n-n, --num <num> : A required numeric value"));
}

#[test]
fn long_help_alias_gives_usage() {
    let def = CommandLineDef::with_text(Text::EnUs);
    let usage = help(def.parse(args(&["program", "--help"])));
    assert_eq!(usage, "Usage: program [-h]\n-h, --help : Display usage message");
}

#[test]
fn help_is_seen_in_the_place_of_a_value() {
    let mut def = CommandLineDef::new();
    def.add_option(vec!["-n"], Some("num"), None, "A number").unwrap();
    let usage = help(def.parse(args(&["program", "-n", "-h"])));
    assert!(usage.starts_with("Usage: program [-h] -n <num>"));
}

#[test]
fn flag_sets_every_alias() {
    let mut def = CommandLineDef::new();
    def.add_flag(vec!["-f", "--flag"], "A flag").unwrap();
    let cl = resolved(def.parse(args(&["program", "-f"])));
    assert_eq!(cl.option::<bool>("-f", "bool").unwrap(), true);
    assert_eq!(cl.option::<bool>("--flag", "bool").unwrap(), true);
}

#[test]
fn negative_value_is_taken_as_value() {
    let mut def = CommandLineDef::new();
    def.add_option(vec!["-n", "--negative"], Some("neg"), None, "A negative value").unwrap();
    let cl = resolved(def.parse(args(&["program", "-n", "-1"])));
    assert_eq!(cl.option::<i16>("-n", "i16").unwrap(), -1);
    assert_eq!(cl.option::<i16>("--negative", "i16").unwrap(), -1);
}

#[test]
fn either_alias_gives_the_same_values() {
    let mut def = CommandLineDef::new();
    def.add_option(vec!["-n", "--negative"], Some("neg"), None, "A negative value").unwrap();
    let short = resolved(def.parse(args(&["program", "-n", "-7"])));
    let long = resolved(def.parse(args(&["program", "--negative", "-7"])));
    for alias in ["-n", "--negative"] {
        assert_eq!(short.option_value(alias).unwrap(), "-7");
        assert_eq!(long.option_value(alias).unwrap(), "-7");
    }
}

#[test]
fn cluster_equals_separate_flags() {
    let mut def = CommandLineDef::new();
    def.add_flag(vec!["-a", "--alpha"], "a").unwrap();
    def.add_flag(vec!["-b"], "b").unwrap();
    def.add_flag(vec!["-c", "--gamma"], "c").unwrap();
    def.add_flag(vec!["-d"], "d").unwrap();
    let cluster = resolved(def.parse(args(&["program", "-abc"])));
    let separate = resolved(def.parse(args(&["program", "-a", "-b", "-c"])));
    for alias in ["-a", "--alpha", "-b", "-c", "--gamma"] {
        assert_eq!(cluster.option_value(alias).unwrap(), "true");
        assert_eq!(separate.option_value(alias).unwrap(), "true");
    }
    assert_eq!(cluster.option_value("-d").unwrap(), "false");
    assert_eq!(separate.option_value("-d").unwrap(), "false");
    assert_eq!(cluster.option_value("-h").unwrap(), "false");
    assert_eq!(cluster.options(), separate.options());
}

#[test]
fn cluster_with_unregistered_flag_fails() {
    let mut def = CommandLineDef::new();
    def.add_flag(vec!["-m"], "The m flag").unwrap();
    def.add_flag(vec!["-b"], "The b flag").unwrap();
    let e = failure(def.parse(args(&["test", "-mbu"])));
    assert_eq!(e.kind, ErrorKind::FlagNotDefined);
    assert_eq!(e.message, "Flag '-u' not defined\nUsage: test [-bhm]\n-h, --help : Display usage message\n        -m : The m flag\n        -b : The b flag");
}

#[test]
fn lone_dash_and_double_dash_tokens_are_not_defined() {
    let def = CommandLineDef::new();
    let e = failure(def.parse(args(&["test", "-"])));
    assert_eq!(e.kind, ErrorKind::OptionNotDefined);
    assert!(e.message.starts_with("Option '-' not defined\n"));
    let e = failure(def.parse(args(&["test", "--unknown"])));
    assert_eq!(e.kind, ErrorKind::OptionNotDefined);
    assert!(e.message.starts_with("Option '--unknown' not defined\n"));
}

#[test]
fn defaults_are_backfilled_for_every_alias() {
    let mut def = CommandLineDef::new();
    def.add_option(vec!["--level", "-l"], Some("level"), Some("med"), "Operating speed").unwrap();
    def.add_flag(vec!["-v", "--verbose"], "Verbose").unwrap();
    let cl = resolved(def.parse(args(&["program"])));
    assert_eq!(cl.option_value("-l").unwrap(), "med");
    assert_eq!(cl.option_value("--level").unwrap(), "med");
    assert_eq!(cl.option_value("-v").unwrap(), "false");
    assert_eq!(cl.option_value("--verbose").unwrap(), "false");
    assert_eq!(cl.option_value("-h").unwrap(), "false");
    assert_eq!(cl.option_value("--help").unwrap(), "false");
    assert_eq!(cl.options(), 6);
}

#[test]
fn option_count_counts_every_alias() {
    let mut def = CommandLineDef::new();
    def.add_option(vec!["-f", "--filename"], Some("filepath"), None, "The file to be parsed").unwrap();
    def.add_flag(vec!["-b"], "A binary flag option").unwrap();
    def.add_argument("arg-0");
    let cl = resolved(def.parse(args(&["program", "-f", "/file/path", "arg1"])));
    assert_eq!(cl.arguments(), 1);
    assert_eq!(cl.options(), 5);
}

#[test]
fn valid_values_are_enforced() {
    let mut def = CommandLineDef::new();
    def.add_option_with_values(vec!["--level"], Some("level"), Some("med"), "Operating Speed", vec!["low", "med", "high"]).unwrap();
    let cl = resolved(def.parse(args(&["program", "--level", "low"])));
    assert_eq!(cl.option::<String>("--level", "String").unwrap(), "low");
    let cl = resolved(def.parse(args(&["program"])));
    assert_eq!(cl.option::<String>("--level", "String").unwrap(), "med");
    let e = failure(def.parse(args(&["program", "--level", "fast"])));
    assert_eq!(e.kind, ErrorKind::OptionValueInvalid);
    assert_eq!(e.message, "Option '--level' must be one of [low,med,high]\nUsage: program [-h] [--level <level>]\n     -h, --help : Display usage message\n--level <level> : [low,med,high]. Operating Speed");
}

#[test]
fn positionals_keep_their_order_and_lose_one_layer_of_quotes() {
    let mut def = CommandLineDef::new();
    def.add_flag(vec!["-v"], "Verbose").unwrap();
    def.add_option(vec!["-n"], Some("num"), Some("0"), "A number").unwrap();
    def.add_argument("first");
    def.add_argument("second");
    def.add_argument("third");
    def.add_argument("fourth");
    let cl = resolved(def.parse(args(&["program", "'one'", "-v", "\"two\"", "-n", "5", "''three''", "'four"])));
    assert_eq!(cl.arguments(), 4);
    assert_eq!(cl.argument::<String>("first", "String").unwrap(), "one");
    assert_eq!(cl.argument::<String>("second", "String").unwrap(), "two");
    assert_eq!(cl.argument::<String>("third", "String").unwrap(), "'three'");
    assert_eq!(cl.argument::<String>("fourth", "String").unwrap(), "'four");
    assert_eq!(cl.argument_at::<String>(1, "String").unwrap(), "two");
    assert_eq!(cl.option::<u8>("-n", "u8").unwrap(), 5);
}

#[test]
fn matching_argument_count_succeeds_and_others_fail() {
    let mut def = CommandLineDef::new();
    def.add_argument("a");
    def.add_argument("b");
    let cl = resolved(def.parse(args(&["program", "x", "y"])));
    assert_eq!(cl.arguments(), 2);
    let e = failure(def.parse(args(&["program", "x"])));
    assert!(e.message.starts_with("Defined 2 arguments, found 1 arguments\n"));
    let e = failure(def.parse(args(&["program", "x", "y", "z"])));
    assert!(e.message.starts_with("Defined 2 arguments, found 3 arguments\n"));
    let e = failure(def.parse(args(&["program"])));
    assert!(e.message.starts_with("Defined 2 arguments, found 0 arguments\n"));
}

#[test]
fn empty_token_sequence_has_empty_program_name() {
    let def = CommandLineDef::new();
    let cl = resolved(def.parse(Vec::new()));
    assert_eq!(cl.program_name(), "");
    assert_eq!(cl.arguments(), 0);
    assert_eq!(cl.options(), 2);
}

#[test]
fn one_definition_parses_many_token_sequences() {
    let mut def = CommandLineDef::new();
    def.add_flag(vec!["-v"], "Verbose").unwrap();
    let first = resolved(def.parse(args(&["one", "-v"])));
    let second = resolved(def.parse(args(&["two"])));
    assert_eq!(first.program_name(), "one");
    assert_eq!(second.program_name(), "two");
    assert_eq!(first.option::<bool>("-v", "bool").unwrap(), true);
    assert_eq!(second.option::<bool>("-v", "bool").unwrap(), false);
}

#[test]
fn unknown_lookups_are_errors() {
    let mut def = CommandLineDef::new();
    def.add_argument("file");
    let cl = resolved(def.parse(args(&["program", "a.txt"])));
    let e = cl.option::<bool>("-x", "bool").unwrap_err();
    assert_eq!(e.kind, ErrorKind::OptionNotFound);
    assert_eq!(e.message, "Option '-x' not found");
    let e = cl.argument::<String>("path", "String").unwrap_err();
    assert_eq!(e.kind, ErrorKind::ArgumentInvalidName);
    assert_eq!(e.message, "Argument 'path' not found");
    let e = cl.argument_at::<String>(12, "String").unwrap_err();
    assert_eq!(e.kind, ErrorKind::ArgumentInvalidIndex);
    assert_eq!(e.message, "Argument index '12' is out of bounds");
}

#[test]
fn values_that_do_not_convert_are_errors() {
    let mut def = CommandLineDef::new();
    def.add_option(vec!["-n"], Some("num"), None, "A number").unwrap();
    def.add_argument("count");
    let cl = resolved(def.parse(args(&["program", "-n", "many", "few"])));
    let e = cl.option::<i32>("-n", "i32").unwrap_err();
    assert_eq!(e.kind, ErrorKind::OptionCannotConvert);
    assert_eq!(e.message, "Cannot convert option '-n' from 'many' to 'i32'");
    let e = cl.argument::<u8>("count", "u8").unwrap_err();
    assert_eq!(e.kind, ErrorKind::ArgumentCannotConvert);
    assert_eq!(e.message, "Cannot convert argument 'count' from 'few' to 'u8'");
    let e = cl.argument_at::<u8>(0, "u8").unwrap_err();
    assert_eq!(e.kind, ErrorKind::ArgumentCannotConvert);
    assert_eq!(e.message, "Cannot convert argument 'count' from 'few' to 'u8'");
    assert_eq!(cl.option::<String>("-n", "String").unwrap(), "many");
}

#[test]
fn failed_registration_leaves_the_definition_as_it_was() {
    let mut def = CommandLineDef::new();
    def.add_flag(vec!["-v"], "Verbose").unwrap();
    assert!(def.add_flag(vec!["-x", "-v"], "Again").is_err());
    assert!(def.add_flag(vec!["-y", "-y"], "Twice").is_err());
    assert!(def.add_flag(vec!["-h"], "Help again").is_err());
    let e = failure(def.parse(args(&["program", "-x"])));
    assert_eq!(e.kind, ErrorKind::OptionNotDefined);
    assert_eq!(def.usage("program"), "Usage: program [-hv]\n-h, --help : Display usage message\n        -v : Verbose");
}

#[test]
fn usage_sorts_each_group() {
    let mut def = CommandLineDef::new();
    def.add_flag(vec!["--zeta"], "Long flag").unwrap();
    def.add_option(vec!["--size", "-s"], Some("n"), Some("1"), "Size").unwrap();
    def.add_option(vec!["--out", "-o"], Some("file"), None, "Output").unwrap();
    def.add_option(vec!["--in"], Some("file"), None, "Input").unwrap();
    def.add_flag(vec!["-x"], "X").unwrap();
    def.add_flag(vec!["-a"], "A").unwrap();
    def.add_argument("src");
    assert_eq!(
        def.usage("tool"),
        "Usage: tool [-ahx] [-s <n>] --zeta --in <file> -o <file> <src>\n      -h, --help : Display usage message\n          --zeta : Long flag\n  -s, --size <n> : Size\n-o, --out <file> : Output\n     --in <file> : Input\n              -x : X\n              -a : A"
    );
}

#[test]
fn catalog_falls_back_from_region_to_language_to_default() {
    assert_eq!(Text::for_locale("en-US"), Text::EnUs);
    assert_eq!(Text::for_locale("en"), Text::EnUs);
    assert_eq!(Text::for_locale("en-GB"), Text::EnUs);
    assert_eq!(Text::for_locale("fr-FR"), Text::EnUs);
    assert_eq!(Text::for_locale(""), Text::EnUs);
    assert_eq!(cl_parse::text::language("pt-BR"), "pt");
    assert_eq!(cl_parse::text::language("de"), "en");
    assert_eq!(cl_parse::text::get_text(), Text::EnUs);
}

#[test]
fn text_helpers_give_exact_values() {
    assert_eq!(decimal_string(0), "0");
    assert_eq!(decimal_string(1905), "1905");
    assert_eq!(pad_left("ab", 5), "   ab");
    assert_eq!(pad_left("abcdef", 3), "abcdef");
    assert_eq!(unquote("\"a b\""), "a b");
    assert_eq!(unquote("'"), "'");
    assert_eq!(unquote("'x\""), "'x\"");
    let parts = vec!["b".to_string(), "a".to_string(), "c".to_string()];
    assert_eq!(join(&parts, ", "), "b, a, c");
    assert_eq!(join(&Vec::new(), ", "), "");
    assert!(key_not_greater("--alpha", "-b", "-"));
    assert!(!key_not_greater("-b", "--alpha", "-"));
    assert!(key_not_greater("-a", "--a", "-"));
    let names = vec!["--beta".to_string(), "-a".to_string(), "--a".to_string(), "-c".to_string()];
    assert_eq!(sort_by_key(&names, "-"), vec!["-a", "--a", "--beta", "-c"]);
}

#[test]
fn required_option_without_default_must_be_supplied() {
    let mut def = CommandLineDef::new();
    def.add_option(vec!["--increment"], Some("numeric value"), None, "A number to increment by").unwrap();
    let e = failure(def.parse(args(&["program"])));
    assert_eq!(e.kind, ErrorKind::OptionRequired);
    assert_eq!(
        e.message,
        "Option '--increment' is required\nUsage: program [-h] --increment <numeric value>\n                 -h, --help : Display usage message\n--increment <numeric value> : A number to increment by"
    );
}

#[test]
fn short_help_alias_gives_usage() {
    let def = CommandLineDef::new();
    let usage = help(def.parse(args(&["program", "-h"])));
    assert_eq!(usage, "Usage: program [-h]\n-h, --help : Display usage message");
}

#[test]
fn too_many_tokens_name_both_counts() {
    let mut def = CommandLineDef::new();
    def.add_argument("arg-1");
    let e = failure(def.parse(args(&["program", "x", "y"])));
    assert_eq!(e.kind, ErrorKind::ArgumentCount);
    assert_eq!(
        e.message,
        "Defined 1 arguments, found 2 arguments\nUsage: program [-h] <arg-1>\n-h, --help : Display usage message"
    );
}

#[test]
fn flags_of_a_cluster_all_resolve_true() {
    let mut def = CommandLineDef::new();
    def.add_flag(vec!["-a"], "a").unwrap();
    def.add_flag(vec!["-b"], "b").unwrap();
    def.add_flag(vec!["-c"], "c").unwrap();
    let cl = resolved(def.parse(args(&["program", "-abc"])));
    assert_eq!(cl.option::<bool>("-a", "bool").unwrap(), true);
    assert_eq!(cl.option::<bool>("-b", "bool").unwrap(), true);
    assert_eq!(cl.option::<bool>("-c", "bool").unwrap(), true);
}

#[test]
fn flag_in_a_cluster_sets_its_long_alias_too() {
    let mut def = CommandLineDef::new();
    def.add_flag(vec!["-b", "--boolean"], "A boolean value").unwrap();
    def.add_flag(vec!["-f", "--faux"], "Another boolean value").unwrap();
    let cl = resolved(def.parse(args(&["program", "-fb"])));
    assert_eq!(cl.option::<bool>("--boolean", "bool").unwrap(), true);
    assert_eq!(cl.option::<bool>("--faux", "bool").unwrap(), true);
}

#[test]
fn short_alias_may_be_any_one_character() {
    let mut def = CommandLineDef::new();
    def.add_flag(vec!["-é", "--été"], "Summer").unwrap();
    let cl = resolved(def.parse(args(&["program", "-é"])));
    assert_eq!(cl.option::<bool>("--été", "bool").unwrap(), true);
    assert_eq!(def.usage("p"), "Usage: p [-hé]\n-h, --help : Display usage message\n -é, --été : Summer");
}

#[test]
fn conversion_error_names_alias_value_and_type() {
    let mut def = CommandLineDef::new();
    def.add_option(vec!["-n", "--num"], Some("num"), None, "A numeric value").unwrap();
    let cl = resolved(def.parse(args(&["test", "-n", "abc"])));
    let e = cl.option::<i16>("-n", "i16").unwrap_err();
    assert_eq!(e.kind, ErrorKind::OptionCannotConvert);
    assert_eq!(e.message, "Cannot convert option '-n' from 'abc' to 'i16'");
    assert_eq!(cl.option::<String>("-n", "String").unwrap(), "abc");
    let e = converted::<i16>(&Text::EnUs, ErrorKind::ArgumentCannotConvert, "count", "x", "i16", None)
        .unwrap_err();
    assert_eq!(e.message, "Cannot convert argument 'count' from 'x' to 'i16'");
    assert_eq!(
        converted(&Text::EnUs, ErrorKind::OptionCannotConvert, "-n", "7", "i16", Some(7i16)).unwrap(),
        7
    );
}

#[test]
fn find_value_gives_the_last_position_of_the_key() {
    let entries = vec![
        ("a".to_string(), "1".to_string()),
        ("b".to_string(), "2".to_string()),
        ("a".to_string(), "3".to_string()),
    ];
    assert_eq!(find_value(&entries, "a"), Some(2));
    assert_eq!(find_value(&entries, "b"), Some(1));
    assert_eq!(find_value(&entries, "c"), None);
}

#[test]
fn entry_without_alias_is_registered_and_inert() {
    let mut def = CommandLineDef::new();
    def.add_option(Vec::new(), Some("value"), None, "Nameless").unwrap();
    def.add_flag(Vec::new(), "Nameless flag").unwrap();
    def.add_flag(vec!["-v"], "Verbose").unwrap();
    let cl = resolved(def.parse(args(&["program", "-v"])));
    assert_eq!(cl.option_value("-v").unwrap(), "true");
    assert_eq!(cl.options(), 3);
    assert_eq!(
        def.usage("program"),
        "Usage: program [-hv]\n-h, --help : Display usage message\n   <value> : Nameless\n           : Nameless flag\n        -v : Verbose"
    );
}
