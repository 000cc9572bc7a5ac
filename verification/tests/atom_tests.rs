use lox_rs::atom::Atom;
use lox_rs::errors::LanguageError;
use lox_rs::scanner::TokenType;

#[test]
fn number_plus_bool_coerces_to_numeric_sum() {
    let r = Atom::add(Atom::Number(1f64.to_bits()), Atom::Bool(true)).unwrap();
    match r {
        Atom::Number(bits) => assert_eq!(bits, 2f64.to_bits()),
        other => panic!("expected a number, got {:?}", other),
    }
}

#[test]
fn number_plus_string_concatenates() {
    let r = Atom::add(Atom::Number(1f64.to_bits()), Atom::String(String::from("x"))).unwrap();
    match r {
        Atom::String(s) => assert_eq!(s, "1x"),
        other => panic!("expected a string, got {:?}", other),
    }
}

#[test]
fn bool_plus_bool_is_a_type_error() {
    let r = Atom::add(Atom::Bool(true), Atom::Bool(false));
    match r {
        Err(LanguageError::TypeError(msg)) => {
            assert_eq!(msg, "Addition not supported for Bool and Bool");
        }
        other => panic!("expected a type error, got {:?}", other),
    }
}

#[test]
fn string_concatenations_cover_bools_and_nil() {
    let cat = |r: Result<Atom, LanguageError>| match r.unwrap() {
        Atom::String(s) => s,
        other => panic!("expected a string, got {:?}", other),
    };
    assert_eq!(cat(Atom::add(Atom::String(String::from("a")), Atom::String(String::from("b")))), "ab");
    assert_eq!(cat(Atom::add(Atom::Bool(true), Atom::String(String::from("!")))), "true!");
    assert_eq!(cat(Atom::add(Atom::String(String::from("is ")), Atom::Bool(false))), "is false");
    assert_eq!(cat(Atom::add(Atom::Nil, Atom::String(String::from("s")))), "nils");
    assert_eq!(cat(Atom::add(Atom::String(String::from("s")), Atom::Nil)), "snil");
    assert_eq!(cat(Atom::add(Atom::String(String::from("n=")), Atom::Number(2.5f64.to_bits()))), "n=2.5");
}

#[test]
fn subtraction_supports_numbers_and_coerced_bools() {
    let r = Atom::sub(Atom::Number(5f64.to_bits()), Atom::Number(3f64.to_bits())).unwrap();
    assert!(matches!(r, Atom::Number(b) if b == 2f64.to_bits()));
    let r = Atom::sub(Atom::Number(5f64.to_bits()), Atom::Bool(true)).unwrap();
    assert!(matches!(r, Atom::Number(b) if b == 4f64.to_bits()));
    let r = Atom::sub(Atom::Bool(false), Atom::Number(1f64.to_bits())).unwrap();
    assert!(matches!(r, Atom::Number(b) if b == (-1f64).to_bits()));
    match Atom::sub(Atom::String(String::from("a")), Atom::Number(1f64.to_bits())) {
        Err(LanguageError::TypeError(msg)) => {
            assert_eq!(msg, "Subtraction not supported for String and Number");
        }
        other => panic!("expected a type error, got {:?}", other),
    }
}

#[test]
fn multiplication_supports_numbers_and_coerced_bools() {
    let r = Atom::mult(Atom::Number(4f64.to_bits()), Atom::Number(2.5f64.to_bits())).unwrap();
    assert!(matches!(r, Atom::Number(b) if b == 10f64.to_bits()));
    let r = Atom::mult(Atom::Bool(true), Atom::Number(7f64.to_bits())).unwrap();
    assert!(matches!(r, Atom::Number(b) if b == 7f64.to_bits()));
    match Atom::mult(Atom::Nil, Atom::Nil) {
        Err(LanguageError::TypeError(msg)) => {
            assert_eq!(msg, "Multiplication not supported for Nil and Nil");
        }
        other => panic!("expected a type error, got {:?}", other),
    }
}

#[test]
fn division_follows_ieee_semantics() {
    let r = Atom::divide(Atom::Number(7f64.to_bits()), Atom::Number(2f64.to_bits())).unwrap();
    assert!(matches!(r, Atom::Number(b) if b == 3.5f64.to_bits()));
    // division by a false boolean is division by zero: infinity, not an error
    let r = Atom::divide(Atom::Number(1f64.to_bits()), Atom::Bool(false)).unwrap();
    match r {
        Atom::Number(bits) => assert_eq!(bits, f64::INFINITY.to_bits()),
        other => panic!("expected a number, got {:?}", other),
    }
    let r = Atom::divide(Atom::Number(0f64.to_bits()), Atom::Number(0f64.to_bits())).unwrap();
    match r {
        Atom::Number(bits) => assert!(f64::from_bits(bits).is_nan()),
        other => panic!("expected a number, got {:?}", other),
    }
}

#[test]
fn relational_operators_compare_numbers_only() {
    let two = || Atom::Number(2f64.to_bits());
    let three = || Atom::Number(3f64.to_bits());
    assert!(matches!(Atom::comp(&TokenType::LESS, two(), three()).unwrap(), Atom::Bool(true)));
    assert!(matches!(Atom::comp(&TokenType::LESS, three(), two()).unwrap(), Atom::Bool(false)));
    assert!(matches!(Atom::comp(&TokenType::LESSEQUAL, two(), two()).unwrap(), Atom::Bool(true)));
    assert!(matches!(Atom::comp(&TokenType::GREATER, three(), two()).unwrap(), Atom::Bool(true)));
    assert!(matches!(
        Atom::comp(&TokenType::GREATEREQUAL, two(), three()).unwrap(),
        Atom::Bool(false)
    ));
    match Atom::comp(&TokenType::LESSEQUAL, Atom::Bool(true), two()) {
        Err(LanguageError::TypeError(msg)) => {
            assert_eq!(msg, "LESSEQUAL not supported between Bool and Number");
        }
        other => panic!("expected a type error, got {:?}", other),
    }
}

#[test]
fn nan_compares_with_nothing() {
    let nan = || Atom::Number(f64::NAN.to_bits());
    let one = || Atom::Number(1f64.to_bits());
    assert!(matches!(Atom::comp(&TokenType::LESS, nan(), one()).unwrap(), Atom::Bool(false)));
    assert!(matches!(Atom::comp(&TokenType::GREATER, nan(), one()).unwrap(), Atom::Bool(false)));
    assert!(matches!(Atom::comp(&TokenType::LESSEQUAL, nan(), nan()).unwrap(), Atom::Bool(false)));
    assert!(nan() != nan());
}

#[test]
fn equality_is_defined_within_strings_numbers_and_nil() {
    assert!(Atom::String(String::from("a")) == Atom::String(String::from("a")));
    assert!(Atom::String(String::from("a")) != Atom::String(String::from("b")));
    assert!(Atom::Number(2f64.to_bits()) == Atom::Number(2f64.to_bits()));
    assert!(Atom::Nil == Atom::Nil);
    // the two IEEE zeros are equal though their bits differ
    assert!(Atom::Number(0f64.to_bits()) == Atom::Number((-0f64).to_bits()));
}

#[test]
fn cross_variant_and_boolean_comparisons_are_unequal() {
    assert!(Atom::Number(1f64.to_bits()) != Atom::String(String::from("1")));
    assert!(Atom::Nil != Atom::Bool(false));
    assert!(Atom::String(String::from("")) != Atom::Nil);
    // boolean pairs fall outside the defined cases and never compare equal
    assert!(Atom::Bool(true) != Atom::Bool(true));
}

#[test]
fn debug_text_renders_each_variant() {
    assert_eq!(Atom::Nil.debug_text(), "Nil");
    assert_eq!(Atom::Bool(true).debug_text(), "Bool(true)");
    assert_eq!(Atom::Bool(false).debug_text(), "Bool(false)");
    assert_eq!(Atom::String(String::from("hi")).debug_text(), "String(\"hi\")");
    assert_eq!(Atom::Number(7f64.to_bits()).debug_text(), "Number(7.0)");
    assert_eq!(Atom::Number(123.45f64.to_bits()).debug_text(), "Number(123.45)");
}

#[test]
fn text_renders_the_concatenation_form() {
    assert_eq!(Atom::Nil.text(), "nil");
    assert_eq!(Atom::Bool(true).text(), "true");
    assert_eq!(Atom::String(String::from("s")).text(), "s");
    assert_eq!(Atom::Number(1f64.to_bits()).text(), "1");
    assert_eq!(Atom::Number(2.5f64.to_bits()).text(), "2.5");
}

#[test]
fn kind_name_names_the_variant() {
    assert_eq!(Atom::Nil.kind_name(), "Nil");
    assert_eq!(Atom::Bool(true).kind_name(), "Bool");
    assert_eq!(Atom::Number(0).kind_name(), "Number");
    assert_eq!(Atom::String(String::new()).kind_name(), "String");
}
