use safflower::error::ReadError;
use safflower::name::Name;

#[test]
fn bad_names() {
    for n in ["", "0", "   ", "A B", "_a_", "$8", "44044"] {
        assert!(Name::try_from(n).is_err(), "src: \"{n}\"");
    }
}

#[test]
fn ok_names() {
    for n in ["a", "AB", "num0", "a_small", "f0-0"] {
        assert!(Name::try_from(n).is_ok(), "src: \"{n}\"");
    }
}

#[test]
fn name_errors_name_the_character() {
    assert_eq!(Name::try_from(""), Err(ReadError::EmptyName));
    assert_eq!(Name::try_from("0a"), Err(ReadError::NameInvalidFirst('0')));
    assert_eq!(Name::try_from("a b"), Err(ReadError::NameInvalid(' ')));
    assert_eq!(Name::try_from("ab$c%"), Err(ReadError::NameInvalid('$')));
}

#[test]
fn name_round_trip() {
    for n in ["a", "en_us", "num0", "a__b", "x9_"] {
        let built = Name::try_from(n).unwrap();
        assert_eq!(built.to_str(), n);
        let again = Name::try_from(built.to_str()).unwrap();
        assert_eq!(again, built);
    }
}

#[test]
fn name_folding() {
    let a = Name::try_from("EN-us").unwrap();
    let b = Name::try_from("en_US").unwrap();
    assert_eq!(a, b);
    assert_eq!(a.to_str(), "en_us");
}

#[test]
fn name_built_one_character_at_a_time() {
    let mut n = Name::new('G').unwrap();
    n.add('r').unwrap();
    n.add('-').unwrap();
    n.add('1').unwrap();
    assert_eq!(n.to_str(), "gr_1");
    assert_eq!(n.add('!'), Err(ReadError::NameInvalid('!')));
    assert_eq!(n.to_str(), "gr_1");
    assert!(Name::new('1').is_err());
    assert!(Name::is_valid('-'));
    assert!(!Name::is_valid(':'));
}

#[test]
fn variant_names() {
    for (n, v) in [("en", "En"), ("en_us", "EnUs"), ("a__b", "AB"), ("x_1", "X1"), ("b_", "B")] {
        assert_eq!(Name::try_from(n).unwrap().variant_name(), v);
    }
}
