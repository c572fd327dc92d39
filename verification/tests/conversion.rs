use roman_numerals::{parse, roman_to_int, Numeral, Numerals, ParseNumeralError};

#[test]
fn generate_single_numeral() {
    let i: Numerals = Numerals::new(vec![Numeral::from('I')]);
    assert_eq!(1, i.convert_to_int());
}

#[test]
fn convert_to_sum_2000() {
    let letters = "MM";
    let numerals: Numerals = Numerals::new(letters.chars().map(Numeral::from).collect());

    assert_eq!(2000, numerals.convert_to_int());
}

#[test]
fn convert_to_sum_2005() {
    let letters = "MMV";
    let numbers: Vec<Numeral> = letters.chars().map(Numeral::from).collect();
    let numerals: Numerals = Numerals::new(numbers);

    assert_eq!(2005, numerals.convert_to_int());
}

#[test]
fn convert_all() {
    let letters = "IVXLCDM";
    let numbers: Vec<Numeral> = letters.chars().map(Numeral::from).collect();
    let numerals: Numerals = Numerals::new(numbers);

    assert_eq!(334, numerals.convert_to_int());
}

#[test]
fn can_create_numerals_directly() {
    let numerals: Numerals = Numerals::from_str("MMV").unwrap();
    assert_eq!(2005, numerals.convert_to_int());

    let numerals: Numerals = Numerals::from_str("MMMV").unwrap();
    assert_eq!(3005, numerals.convert_to_int());
}

#[test]
fn single_symbols() {
    assert_eq!(1, roman_to_int("I"));
    assert_eq!(5, roman_to_int("V"));
    assert_eq!(10, roman_to_int("X"));
    assert_eq!(50, roman_to_int("L"));
    assert_eq!(100, roman_to_int("C"));
    assert_eq!(500, roman_to_int("D"));
    assert_eq!(1000, roman_to_int("M"));
}

#[test]
fn composed_entry_point() {
    assert_eq!(2000, roman_to_int("MM"));
    assert_eq!(2005, roman_to_int("MMV"));
    assert_eq!(3005, roman_to_int("MMMV"));
    assert_eq!(334, roman_to_int("IVXLCDM"));
}

#[test]
fn subtractive_pairs() {
    assert_eq!(4, roman_to_int("IV"));
    assert_eq!(9, roman_to_int("IX"));
    assert_eq!(40, roman_to_int("XL"));
    assert_eq!(1994, roman_to_int("MCMXCIV"));
}

#[test]
fn lenient_on_invalid_grammar() {
    assert_eq!(4, roman_to_int("IIII"));
    assert_eq!(5, roman_to_int("VX"));
}

#[test]
fn case_insensitive() {
    assert_eq!(roman_to_int("MMV"), roman_to_int("mmv"));
    assert_eq!(2005, roman_to_int("mmv"));
    assert_eq!(2005, roman_to_int("mMv"));
    assert_eq!(1, roman_to_int("i"));
}

#[test]
fn unrecognized_characters_contribute_zero() {
    assert_eq!(4, roman_to_int("I1V"));
    assert_eq!(roman_to_int("IV"), roman_to_int("I1V"));
    assert_eq!(2005, roman_to_int("MM V!"));
    assert_eq!(0, roman_to_int("?!# 42"));
}

#[test]
fn mapping_is_idempotent() {
    let first = parse("MCMXCIV");
    let second = parse("MCMXCIV");
    assert_eq!(first.convert_to_int(), second.convert_to_int());
}

#[test]
fn empty_string_converts_to_zero() {
    assert_eq!(0, roman_to_int(""));
    assert_eq!(0, parse("").convert_to_int());
    assert_eq!(0, Numerals::new(vec![]).convert_to_int());
}

#[test]
fn from_str_never_fails() {
    let odd: Result<Numerals, ParseNumeralError> = Numerals::from_str("xyz?!");
    assert!(odd.is_ok());
    assert!(Numerals::from_str("").is_ok());
}

#[test]
fn parse_matches_from_char() {
    let parsed = parse("dlxvi");
    let built = Numerals::new("DLXVI".chars().map(Numeral::from).collect());
    assert_eq!(566, parsed.convert_to_int());
    assert_eq!(566, built.convert_to_int());
}
