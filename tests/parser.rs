use safflower::config::Configuration;
use safflower::error::{Error, ParseError, ReadError};
use safflower::name::Name;
use safflower::parser::Parser;
use safflower::reader::Token;
use safflower::validate::{extract_arguments, Key};

fn parse_tokens(tokens: Vec<Token>) -> Result<Vec<Key>, Error> {
    let mut parser = Parser::new();
    parser.parse(tokens.into_iter().map(Ok).collect())?;
    parser.collect().map(|pd| pd.keys)
}

fn name(str: &str) -> Name {
    Name::try_from(str).unwrap()
}

fn names<const S: usize>(strs: [&str; S]) -> Vec<Name> {
    strs.into_iter().map(Name::try_from).collect::<Result<_, _>>().unwrap()
}

#[test]
fn bad_locales() {
    let ins = [
        "",
        "locs",
        "locales",
        " locales ",
        "locales se se",
        "locales se SE",
        "locales U$",
        "locales -a",
        "locales __Temp",
    ];

    for input in ins {
        let mut configuration = Configuration::new();
        let result = configuration.parse_config(input);

        assert!(result.is_err(), "'{input}' should be err");
    }
}

#[test]
fn ok_locales() {
    let ins_outs = [
        ("locales en", names(["en"])),
        ("locales EN", names(["en"])),
        ("locales long-test", names(["long_test"])),
        ("locales b-", names(["b_"])),
        ("locales b_-", names(["b__"])),
        ("locales se02 SE01", names(["se02", "se01"])),
        ("locales it fr", names(["it", "fr"])),
        ("locales \tit   fr", names(["it", "fr"])),
    ];

    for (input, output) in ins_outs {
        let mut configuration = Configuration::new();
        let result = configuration.parse_config(input);

        assert!(result.is_ok(), "'{input}' should be ok; got {result:?}");
        assert_eq!(configuration.locales, output);
    }
}

#[test]
fn directive_errors() {
    let mut c = Configuration::new();
    assert_eq!(c.parse_config("   "), Err(Error::Parse(ParseError::EmptyKey)));
    assert_eq!(
        c.parse_config("colours red"),
        Err(Error::Parse(ParseError::UnknownKey(String::from("colours"))))
    );
    assert_eq!(
        c.parse_config("locales"),
        Err(Error::Parse(ParseError::MissingValues(String::from("locales"))))
    );
    assert_eq!(
        c.parse_config("locales en EN"),
        Err(Error::Parse(ParseError::DuplicateLocale(String::from("en"))))
    );
    let mut c = Configuration::new();
    assert_eq!(
        c.parse_config("locales -a"),
        Err(Error::Read(ReadError::NameInvalidFirst('-')))
    );
}

#[test]
fn queued_sources_come_first_in_order() {
    let mut c = Configuration::new();
    c.source = String::from("dir/main.txt");
    c.parse_config("include a.txt b.txt").unwrap();
    c.parse_config("include /abs/c.txt sub/d.txt").unwrap();
    assert_eq!(
        c.queue,
        vec![
            String::from("/abs/c.txt"),
            String::from("dir/sub/d.txt"),
            String::from("dir/a.txt"),
            String::from("dir/b.txt"),
        ]
    );
    assert_eq!(c.next_source(), Some(String::from("/abs/c.txt")));
    assert_eq!(c.queue.len(), 3);
    assert_eq!(
        c.parse_config("include"),
        Err(Error::Parse(ParseError::MissingValues(String::from("include"))))
    );
}

#[test]
fn minimal_case() {
    let tokens = vec![
        Token::Config(String::from("locales a")),
        Token::Key(name("key")),
        Token::Locale(name("a")),
        Token::Value(String::from("value")),
    ];

    let keys = parse_tokens(tokens).expect("should be ok");

    assert_eq!(
        keys,
        vec![Key {
            id: name("key"),
            arguments: vec![],
            comment: None,
            entries: vec![String::from("value")]
        }]
    );
}

#[test]
fn key_comment() {
    let tokens = vec![
        Token::Config(String::from("locales a")),
        Token::Comment(String::from("hi!")),
        Token::Key(name("key")),
        Token::Locale(name("a")),
        Token::Value(String::from("value")),
    ];

    let keys = parse_tokens(tokens).expect("should be ok");

    assert_eq!(
        keys,
        vec![Key {
            id: name("key"),
            arguments: vec![],
            comment: Some(String::from("hi!")),
            entries: vec![String::from("value")]
        }]
    );
}

#[test]
fn entry_comments() {
    let tokens = vec![
        Token::Config(String::from("locales a")),
        Token::Key(name("key")),
        Token::Comment(String::from("hi!")),
        Token::Locale(name("a")),
        Token::Value(String::from("value")),
    ];

    let keys_1 = parse_tokens(tokens).expect("should be ok");

    let tokens = vec![
        Token::Config(String::from("locales a")),
        Token::Key(name("key")),
        Token::Locale(name("a")),
        Token::Comment(String::from("hi!")),
        Token::Value(String::from("value")),
    ];

    let keys_2 = parse_tokens(tokens).expect("should be ok");

    assert_eq!(keys_1, keys_2);

    assert_eq!(
        keys_1,
        vec![Key {
            id: name("key"),
            arguments: vec![],
            comment: Some(String::from(" # Locale notes\n- *a*: hi!\n")),
            entries: vec![String::from("value")]
        }]
    );
}

#[test]
fn key_and_entry_comments_merge() {
    let tokens = vec![
        Token::Config(String::from("locales a b")),
        Token::Comment(String::from("top")),
        Token::Key(name("key")),
        Token::Locale(name("a")),
        Token::Value(String::from("x")),
        Token::Comment(String::from("note b")),
        Token::Locale(name("b")),
        Token::Value(String::from("y")),
    ];
    let keys = parse_tokens(tokens).unwrap();
    assert_eq!(keys[0].comment, Some(String::from("top # Locale notes\n- *b*: note b\n")));
}

#[test]
fn mutli_locales() {
    let tokens = vec![
        Token::Config(String::from("locales a b")),
        Token::Key(name("key")),
        Token::Locale(name("a")),
        Token::Value(String::from("value A")),
        Token::Locale(name("b")),
        Token::Value(String::from("value B")),
    ];

    let keys = parse_tokens(tokens).expect("should be ok");

    assert_eq!(
        keys,
        vec![Key {
            id: name("key"),
            arguments: vec![],
            comment: None,
            entries: vec![String::from("value A"), String::from("value B"),]
        }]
    );
}

#[test]
fn missing_locales() {
    let tokens = vec![
        Token::Key(name("key")),
        Token::Locale(name("a")),
        Token::Value(String::from("value A")),
        Token::Locale(name("b")),
        Token::Value(String::from("value B")),
    ];

    assert!(parse_tokens(tokens).is_err());
}

#[test]
fn missing_declared_locale() {
    let tokens = vec![
        Token::Config(String::from("locales a b")),
        Token::Key(name("key")),
        Token::Locale(name("a")),
        Token::Value(String::from("value A")),
    ];

    assert!(parse_tokens(tokens).is_err());
}

#[test]
fn using_declared_default() {
    let tokens = vec![
        Token::Config(String::from("locales a b")),
        Token::Key(name("key")),
        Token::Value(String::from("value A")),
        Token::Locale(name("b")),
        Token::Value(String::from("value B")),
    ];

    assert!(parse_tokens(tokens).is_err());
}

#[test]
fn using_and_not_default() {
    let tokens = vec![
        Token::Key(name("key")),
        Token::Locale(name("b")),
        Token::Value(String::from("value B")),
    ];

    assert!(parse_tokens(tokens).is_err());

    let tokens = vec![
        Token::Config(String::from("locales b")),
        Token::Key(name("key")),
        Token::Locale(name("b")),
        Token::Value(String::from("value B")),
    ];

    assert!(parse_tokens(tokens).is_ok());
}

#[test]
fn structural_errors() {
    let cfg = || Token::Config(String::from("locales a b"));
    let cases: Vec<(Vec<Token>, ParseError)> = vec![
        (vec![cfg(), Token::Locale(name("a"))], ParseError::UnexpectedToken(Token::Locale(name("a")))),
        (
            vec![cfg(), Token::Value(String::from("v"))],
            ParseError::UnexpectedToken(Token::Value(String::from("v"))),
        ),
        (vec![cfg(), Token::Key(name("k"))], ParseError::ExpectedLocale),
        (vec![cfg(), Token::Key(name("k")), Token::Key(name("j"))], ParseError::ExpectedLocale),
        (vec![cfg(), Token::Key(name("k")), Token::Locale(name("a"))], ParseError::ExpectedValue),
        (
            vec![cfg(), Token::Key(name("k")), Token::Locale(name("c"))],
            ParseError::UndeclaredLocale(String::from("c")),
        ),
        (
            vec![
                cfg(),
                Token::Key(name("k")),
                Token::Locale(name("a")),
                Token::Value(String::from("1")),
                Token::Locale(name("a")),
                Token::Value(String::from("2")),
            ],
            ParseError::DuplicateEntry(String::from("k"), String::from("a")),
        ),
        (
            vec![
                cfg(),
                Token::Key(name("k")),
                Token::Locale(name("a")),
                Token::Value(String::from("1")),
                Token::Key(name("k")),
                Token::Locale(name("a")),
                Token::Value(String::from("2")),
            ],
            ParseError::DuplicateEntry(String::from("k"), String::from("a")),
        ),
        (
            vec![
                cfg(),
                Token::Key(name("k")),
                Token::Locale(name("a")),
                Token::Value(String::from("1")),
            ],
            ParseError::MissingLocale(String::from("k"), String::from("b")),
        ),
        (vec![Token::Key(name("k")), Token::Locale(name("a"))], ParseError::NoLocales),
    ];
    for (tokens, err) in cases {
        assert_eq!(parse_tokens(tokens), Err(Error::Parse(err)));
    }
    let mut parser = Parser::new();
    assert_eq!(
        parser.parse(vec![Ok(Token::Config(String::from("locales a"))), Err(ReadError::EOF)]),
        Err(Error::Read(ReadError::EOF))
    );
}

#[test]
fn key_split_over_two_declarations() {
    let tokens = vec![
        Token::Config(String::from("locales a b")),
        Token::Comment(String::from("one. ")),
        Token::Key(name("k")),
        Token::Locale(name("a")),
        Token::Value(String::from("x")),
        Token::Comment(String::from("two.")),
        Token::Key(name("k")),
        Token::Locale(name("b")),
        Token::Value(String::from("y")),
    ];
    let keys = parse_tokens(tokens).unwrap();
    assert_eq!(
        keys,
        vec![Key {
            id: name("k"),
            arguments: vec![],
            comment: Some(String::from("one. two.")),
            entries: vec![String::from("x"), String::from("y")],
        }]
    );
}

#[test]
fn parse_no_arguments() {
    for line in ["Hello", ""] {
        let result = extract_arguments(line).unwrap();
        assert!(result.is_empty());
    }
}

#[test]
fn parse_invalid_arguments() {
    for line in ["Hi {$arg}", "I want a {{}", "Do you want a {}}?", "No, but a {?}"] {
        let result = extract_arguments(line);
        assert!(result.is_err(), "{line} should fault, is instead {:?}", result.unwrap(),);
    }
}

#[test]
fn parse_single_arguments() {
    for (line, arg) in [("Hello {name}", "name"), ("{0} is really cool", "0"), ("{arg-b}", "arg_b"), ("{}", "0")] {
        let result = extract_arguments(line).unwrap();
        assert_eq!(result, vec![arg]);
    }
}

#[test]
fn parse_mutliple_arguments() {
    for (line, arg) in [
        ("Hello {name}, I'm {name2}", vec!["name", "name2"]),
        ("{0}{1}{3}", vec!["0", "1", "3"]),
        ("{}{}{}", vec!["0", "1", "2"]),
    ] {
        let result = extract_arguments(line).unwrap();
        assert_eq!(result, arg);
    }
}
