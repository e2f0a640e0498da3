use safflower::emit::{Accessor, Binding, Generator, LocaleVariant};
use safflower::name::Name;
use safflower::parser::Parser;
use safflower::reader::tokenize;
use safflower::validate::Key;

fn name(str: &str) -> Name {
    Name::try_from(str).unwrap()
}

fn names<const S: usize>(strs: [&str; S]) -> Vec<Name> {
    strs.into_iter().map(Name::try_from).collect::<Result<_, _>>().unwrap()
}

fn variants(v: &[LocaleVariant]) -> Vec<&str> {
    v.iter().map(|l| l.variant.as_str()).collect()
}

fn s(x: &str) -> String {
    String::from(x)
}

#[test]
fn enum_single_locale() {
    let art = Generator::new(names(["en"]), Vec::new()).generate();
    assert_eq!(variants(&art.locales), vec!["En"]);
    assert_eq!(art.locales[0].name, name("en"));
    assert!(art.accessors.is_empty());
}

#[test]
fn enum_mutli_locales() {
    let art = Generator::new(names(["en", "it", "fr"]), Vec::new()).generate();
    assert_eq!(variants(&art.locales), vec!["En", "It", "Fr"]);
}

#[test]
fn enum_variant_locales() {
    let art = Generator::new(names(["en-US", "en_uk", "en-in"]), Vec::new()).generate();
    assert_eq!(variants(&art.locales), vec!["EnUs", "EnUk", "EnIn"]);
}

#[test]
fn single_key_single_locale() {
    let key = Key { id: name("greet"), arguments: vec![], comment: Some(s("Common greeting.")), entries: vec![s("hi")] };
    let art = Generator::new(names(["en"]), vec![key]).generate();
    assert_eq!(
        art.accessors,
        vec![Accessor {
            id: s("greet"),
            comment: Some(s("Common greeting.")),
            named: vec![],
            positional: vec![],
            bindings: vec![],
            templates: vec![s("hi")],
        }]
    );
}

#[test]
fn single_key_single_locale_single_arg() {
    let key = Key {
        id: name("greet"),
        arguments: vec![s("name")],
        comment: Some(s("Common greeting.")),
        entries: vec![s("hi {name}")],
    };
    let art = Generator::new(names(["en"]), vec![key]).generate();
    let a = &art.accessors[0];
    assert_eq!(a.named, vec![s("name")]);
    assert!(a.positional.is_empty());
    assert_eq!(a.bindings, vec![Binding { placeholder: s("name"), parameter: s("name") }]);
    assert_eq!(a.templates, vec![s("hi {name}")]);
}

#[test]
fn single_key_single_locale_multi_arg() {
    let key = Key {
        id: name("greet"),
        arguments: vec![s("0"), s("1"), s("2")],
        comment: Some(s("Common greeting.")),
        entries: vec![s("hi {0}, {1}, and {2}")],
    };
    let art = Generator::new(names(["en"]), vec![key]).generate();
    let a = &art.accessors[0];
    assert!(a.named.is_empty());
    assert_eq!(a.positional, vec![s("arg0"), s("arg1"), s("arg2")]);
    assert_eq!(a.format(0, &vec![s("a"), s("b"), s("c")]), "hi a, b, and c");
}

#[test]
fn single_key_mutli_locale() {
    let key = Key {
        id: name("surprise"),
        arguments: vec![],
        comment: None,
        entries: vec![s("oh my god"), s("jösses"), s("oddio")],
    };
    let art = Generator::new(names(["en", "se", "it"]), vec![key]).generate();
    let a = &art.accessors[0];
    assert_eq!(a.comment, None);
    assert_eq!(a.templates, vec![s("oh my god"), s("jösses"), s("oddio")]);
    assert_eq!(a.format(1, &vec![]), "jösses");
}

#[test]
fn single_key_single_locale_generate_all() {
    let key = Key { id: name("greet"), arguments: vec![], comment: None, entries: vec![s("hi")] };
    let art = Generator::new(names(["en"]), vec![key]).generate();
    assert_eq!(variants(&art.locales), vec!["En"]);
    assert_eq!(art.accessors.len(), 1);
    assert_eq!(art.text(0, "greet", &vec![]), Some(s("hi")));
}

#[test]
fn multi_key_single_locale_generate_all() {
    let keys = vec![
        Key { id: name("greet"), arguments: vec![], comment: None, entries: vec![s("hi")] },
        Key { id: name("other_greet"), arguments: vec![], comment: None, entries: vec![s("hello")] },
    ];
    let art = Generator::new(names(["en"]), keys).generate();
    let ids: Vec<&str> = art.accessors.iter().map(|a| a.id.as_str()).collect();
    assert_eq!(ids, vec!["greet", "other_greet"]);
    assert_eq!(art.text(0, "other_greet", &vec![]), Some(s("hello")));
}

#[test]
fn multi_key_multi_locale_generate_all() {
    let keys = vec![
        Key { id: name("greet"), arguments: vec![], comment: None, entries: vec![s("hi"), s("γεια")] },
        Key { id: name("other_greet"), arguments: vec![], comment: None, entries: vec![s("hello"), s("καλημέρα")] },
    ];
    let art = Generator::new(names(["en", "gr"]), keys).generate();
    assert_eq!(variants(&art.locales), vec!["En", "Gr"]);
    assert_eq!(art.text(1, "greet", &vec![]), Some(s("γεια")));
    assert_eq!(art.text(1, "other_greet", &vec![]), Some(s("καλημέρα")));
}

#[test]
fn multi_from_text() {
    let source = "
        !locales en gr
        greet:
            en \"hi\"
            gr \"γεια\"
        other_greet:
            en \"hello\"
            gr \"καλημέρα\"
    ";
    let mut parser = Parser::new();
    parser.parse(tokenize(source)).unwrap();
    let parsed = parser.collect().unwrap();
    let art = Generator::new(parsed.locales, parsed.keys).generate();
    assert_eq!(variants(&art.locales), vec!["En", "Gr"]);
    let ids: Vec<&str> = art.accessors.iter().map(|a| a.id.as_str()).collect();
    assert_eq!(ids, vec!["greet", "other_greet"]);
    assert_eq!(art.accessors[1].templates, vec![s("hello"), s("καλημέρα")]);
}
