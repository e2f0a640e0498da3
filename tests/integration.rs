use safflower::compile::compile;
use safflower::emit::{Artifact, Generator};
use safflower::runtime::LocaleContext;

const ABS_MIN: &str = "!locales x\na: x \"c\"";
const GREET_EN_SE: &str = "!locales en se\ngreet:\n    en \"Hi!\"\n    se \"Hej!\"\n";
const GREET_NAME_EN_IT: &str = "!locales en it\ngreet:\n    en \"Hi {name}!\"\n    it \"Ciao {name}!\"\n";

fn load(text: &str) -> Artifact {
    let srcs = vec![(String::from("test-data"), String::from(text))];
    let data = compile(&srcs, "test-data").unwrap();
    Generator::new(data.locales, data.keys).generate()
}

fn text(art: &Artifact, ctx: &LocaleContext, key: &str, values: &[String]) -> String {
    art.text(ctx.get(), key, &values.to_vec()).unwrap()
}

#[test]
fn integration_tests_absolute_minimal() {
    let art = load(ABS_MIN);
    assert_eq!(text(&art, &LocaleContext::new(), "a", &[]), "c");
}

#[test]
fn minimal() {
    let art = load(GREET_EN_SE);
    assert_eq!(text(&art, &LocaleContext::new(), "greet", &[]), "Hi!");
}

#[test]
fn tests_absolute_minimal() {
    let art = load(ABS_MIN);
    assert_eq!(text(&art, &LocaleContext::new(), "a", &[]), "c");
}

#[test]
fn two_locales_direct() {
    let art = load(GREET_EN_SE);
    assert_eq!(art.text(0, "greet", &vec![]), Some(String::from("Hi!")));
    assert_eq!(art.text(1, "greet", &vec![]), Some(String::from("Hej!")));
}

#[test]
fn two_locales_macro() {
    let art = load(GREET_EN_SE);
    let mut ctx = LocaleContext::new();
    ctx.set(0);
    assert_eq!(text(&art, &ctx, "greet", &[]), "Hi!");
    ctx.set(1);
    assert_eq!(text(&art, &ctx, "greet", &[]), "Hej!");
}

#[test]
fn arg_str() {
    let art = load(GREET_NAME_EN_IT);
    let name = "Tester";
    assert_eq!(text(&art, &LocaleContext::new(), "greet", &[name.to_string()]), "Hi Tester!");
}

#[test]
fn arg_string() {
    let art = load(GREET_NAME_EN_IT);
    let name = String::from("Tester");
    assert_eq!(text(&art, &LocaleContext::new(), "greet", &[name]), "Hi Tester!");
}

#[test]
fn arg_i32() {
    let art = load(GREET_NAME_EN_IT);
    let name = 93393;
    assert_eq!(text(&art, &LocaleContext::new(), "greet", &[name.to_string()]), "Hi 93393!");
}

#[test]
fn arg_bool() {
    let art = load(GREET_NAME_EN_IT);
    let name = true;
    assert_eq!(text(&art, &LocaleContext::new(), "greet", &[name.to_string()]), "Hi true!");
}

#[test]
fn second_locale_with_argument() {
    let art = load(GREET_NAME_EN_IT);
    assert_eq!(art.text(1, "greet", &vec![String::from("Tester")]), Some(String::from("Ciao Tester!")));
    assert_eq!(art.text(2, "greet", &vec![]), None);
    assert_eq!(art.text(0, "farewell", &vec![]), None);
}

#[test]
fn named_then_positional_values() {
    let art = load("!locales en\nk:\n en \"{1} {who} {0} {who:>3}\"");
    let a = &art.accessors[0];
    assert_eq!(a.parameters(), vec!["who", "arg1", "arg0"]);
    let values = vec![String::from("W"), String::from("one"), String::from("zero")];
    assert_eq!(a.format(0, &values), "one W zero W");
}
