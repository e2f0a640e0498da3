use safflower::compile::{compile, Failure};
use safflower::error::{Error, ParseError};
use safflower::name::Name;
use safflower::parser::{ParsedData, Parser};
use safflower::runtime::LocaleContext;
use safflower::validate::{extract_arguments, get_arguments, Key};
use safflower::emit::{Artifact, Generator};

fn sources(list: &[(&str, &str)]) -> Vec<(String, String)> {
    list.iter().map(|(a, b)| (a.to_string(), b.to_string())).collect()
}

fn compile_one(text: &str) -> Result<ParsedData, Failure> {
    compile(&sources(&[("main.txt", text)]), "main.txt")
}

fn artifact(text: &str) -> Artifact {
    let data = compile_one(text).unwrap();
    Generator::new(data.locales, data.keys).generate()
}

fn name(s: &str) -> Name {
    Name::try_from(s).unwrap()
}

#[test]
fn scenario_single_locale() {
    let data = compile_one("!locales en\ngreet:\n en \"hi\"").unwrap();
    assert_eq!(data.locales, vec![name("en")]);
    assert_eq!(
        data.keys,
        vec![Key { id: name("greet"), arguments: vec![], comment: None, entries: vec![String::from("hi")] }]
    );
}

#[test]
fn scenario_two_locales_with_argument() {
    let data = compile_one("!locales en se\ngreet:\n en \"Hi {name}!\"\n se \"Hej {name}!\"").unwrap();
    assert_eq!(data.keys.len(), 1);
    assert_eq!(data.keys[0].arguments, vec![String::from("name")]);
    assert_eq!(data.keys[0].entries, vec![String::from("Hi {name}!"), String::from("Hej {name}!")]);
}

#[test]
fn scenario_missing_locale_cites_it() {
    let r = compile_one("!locales a b\nkey:\n a \"x\"");
    assert_eq!(
        r.unwrap_err().error,
        Error::Parse(ParseError::MissingLocale(String::from("key"), String::from("b")))
    );
}

#[test]
fn scenario_positional_parameters() {
    let art = artifact("!locales en\nk:\n en \"{0}{1}{3}\"");
    let a = &art.accessors[0];
    assert_eq!(a.bindings.len(), 3);
    assert_eq!(a.named, Vec::<String>::new());
    assert_eq!(a.positional, vec![String::from("arg0"), String::from("arg1"), String::from("arg3")]);
    let placeholders: Vec<&str> = a.bindings.iter().map(|b| b.placeholder.as_str()).collect();
    assert_eq!(placeholders, vec!["0", "1", "3"]);
}

#[test]
fn scenario_no_locales() {
    let r = compile_one("# nothing declared\n");
    assert_eq!(r.unwrap_err().error, Error::Parse(ParseError::NoLocales));
    let r = compile_one("greet:\n en \"hi\"");
    assert_eq!(r.unwrap_err().error, Error::Parse(ParseError::NoLocales));
}

#[test]
fn mismatch_names_the_locale() {
    let r = compile_one("!locales a b\nk:\n a \"{a}\"\n b \"{b}\"");
    assert_eq!(
        r.unwrap_err().error,
        Error::Parse(ParseError::ArgumentMismatch(
            String::from("k"),
            String::from("b"),
            vec![String::from("b")],
            vec![String::from("a")],
        ))
    );
    let r = compile_one("!locales a b\nk:\n a \"{x}{y}\"\n b \"{y}{x}\"");
    assert!(matches!(r.unwrap_err().error, Error::Parse(ParseError::ArgumentMismatch(..))));
}

#[test]
fn get_arguments_checks_every_locale() {
    let locales = vec![name("a"), name("b"), name("c")];
    let entries = vec![String::from("{n}"), String::from("{n}!"), String::from("{m}")];
    assert_eq!(
        get_arguments(&entries, &name("k"), &locales),
        Err(ParseError::ArgumentMismatch(
            String::from("k"),
            String::from("c"),
            vec![String::from("m")],
            vec![String::from("n")]
        ))
    );
    let entries = vec![String::from("{n}"), String::from("{n} {n}")];
    assert_eq!(get_arguments(&entries, &name("k"), &locales), Ok(vec![String::from("n")]));
}

#[test]
fn merging_over_two_sources() {
    let srcs = sources(&[
        ("main.txt", "!locales en se\n!include a.txt b.txt"),
        ("a.txt", "greet:\n en \"Hi\""),
        ("b.txt", "greet:\n se \"Hej\""),
    ]);
    let data = compile(&srcs, "main.txt").unwrap();
    assert_eq!(data.keys[0].entries, vec![String::from("Hi"), String::from("Hej")]);

    let srcs = sources(&[
        ("main.txt", "!locales en se\n!include a.txt b.txt"),
        ("a.txt", "greet:\n en \"Hi\""),
        ("b.txt", "greet:\n en \"Hello\""),
    ]);
    let err = compile(&srcs, "main.txt").unwrap_err();
    assert_eq!(err.source, "b.txt");
    assert_eq!(err.error, Error::Parse(ParseError::DuplicateEntry(String::from("greet"), String::from("en"))));
}

#[test]
fn sources_resolve_and_cycles_stop() {
    let srcs = sources(&[
        ("dir/main.txt", "!locales en\n!include part.txt"),
        ("dir/part.txt", "k:\n en \"v\""),
    ]);
    assert!(compile(&srcs, "dir/main.txt").is_ok());

    let srcs = sources(&[("a.txt", "!locales en\n!include b.txt"), ("b.txt", "!include a.txt")]);
    let err = compile(&srcs, "a.txt").unwrap_err();
    assert_eq!(err.error, Error::Parse(ParseError::Reincluded(String::from("a.txt"))));

    let srcs = sources(&[("a.txt", "!locales en\n!include gone.txt")]);
    let err = compile(&srcs, "a.txt").unwrap_err();
    assert_eq!(err.source, "a.txt");
    assert_eq!(err.error, Error::Parse(ParseError::SourceNotFound(String::from("gone.txt"))));
}

#[test]
fn reading_by_hand_matches_compile() {
    let mut p = Parser::new();
    p.add_source("m", "!locales en\n!include n\nk:\n en \"a\"").unwrap();
    assert_eq!(p.next_source(), Some(String::from("n")));
    p.add_source("n", "j:\n en \"b\"").unwrap();
    assert_eq!(p.next_source(), None);
    assert_eq!(
        p.add_source("m", ""),
        Err(Error::Parse(ParseError::Reincluded(String::from("m"))))
    );
    let data = p.collect().unwrap();
    assert_eq!(data.keys.len(), 2);
}

#[test]
fn extraction_is_idempotent() {
    for line in ["{b}{a}{b}", "{}{x:>4}{}", "{Name} and {NAME-2}"] {
        let args = extract_arguments(line).unwrap();
        let braced: String = args.iter().map(|a| format!("{{{a}}}")).collect();
        assert_eq!(extract_arguments(&braced).unwrap(), args);
    }
    assert_eq!(extract_arguments("{b}{a}{b}").unwrap(), vec!["b", "a"]);
    assert_eq!(extract_arguments("{}{x:>4}{}").unwrap(), vec!["0", "x", "1"]);
}

#[test]
fn placeholder_errors() {
    assert_eq!(extract_arguments("a {{}"), Err(ParseError::NestedBrace));
    assert_eq!(extract_arguments("a {x"), Err(ParseError::NestedBrace));
    assert_eq!(extract_arguments("a }"), Err(ParseError::ExtraClosingBrace));
    assert_eq!(
        extract_arguments("Hi {$arg}"),
        Err(ParseError::ArgBadChar(String::from("Hi {$arg}"), String::new(), '$'))
    );
    assert_eq!(
        extract_arguments("No, {_x}"),
        Err(ParseError::ArgBadStart(String::from("No, {_x}"), String::from("_x"), '}'))
    );
    assert_eq!(
        extract_arguments("a line that runs on well past the limit {1x}"),
        Err(ParseError::ArgBadStart(String::from("a line that runs on w..."), String::from("1x"), '}'))
    );
}

#[test]
fn long_key_is_shortened_in_errors() {
    let r = compile_one("!locales a b\nan_uncommonly_long_key_name_here:\n a \"x\"");
    assert_eq!(
        r.unwrap_err().error,
        Error::Parse(ParseError::MissingLocale(String::from("an_uncommonly_long_ke..."), String::from("b")))
    );
}

#[test]
fn locale_context_switches() {
    let mut ctx = LocaleContext::new();
    assert_eq!(ctx.get(), 0);
    ctx.set(2);
    assert_eq!(ctx.get(), 2);
}
