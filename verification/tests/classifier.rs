use rk_frontend::numeral::Numeral;
use rk_frontend::token::TokenType;

fn number_value(kind: &TokenType) -> f64 {
    match kind {
        TokenType::Number(numeral) => numeral.as_str().parse::<f64>().unwrap(),
        other => panic!("not a number: {:?}", other),
    }
}

#[test]
fn classifies_a_whole_number() {
    let kind = TokenType::from_string("42");
    assert_eq!(number_value(&kind), 42.0);
    match kind {
        TokenType::Number(numeral) => assert_eq!(numeral.as_str(), "42"),
        _ => unreachable!(),
    }
}

#[test]
fn classifies_each_keyword() {
    assert_eq!(TokenType::from_string("func"), TokenType::KeywordFunc);
    assert_eq!(TokenType::from_string("return"), TokenType::KeywordReturn);
    assert_eq!(TokenType::from_string("if"), TokenType::KeywordIf);
    assert_eq!(TokenType::from_string("else"), TokenType::KeywordElse);
    assert_eq!(TokenType::from_string("foreign"), TokenType::KeywordForeign);
}

#[test]
fn keywords_are_matched_exactly() {
    assert_eq!(TokenType::from_string("funcs"), TokenType::Ident("funcs".to_string()));
    assert_eq!(TokenType::from_string("fun"), TokenType::Ident("fun".to_string()));
    assert_eq!(TokenType::from_string("If"), TokenType::Ident("If".to_string()));
    assert_eq!(TokenType::from_string("i"), TokenType::Ident("i".to_string()));
    assert_eq!(TokenType::from_string("elsee"), TokenType::Ident("elsee".to_string()));
}

#[test]
fn classifies_a_name_with_digits() {
    assert_eq!(TokenType::from_string("x9"), TokenType::Ident("x9".to_string()));
}

#[test]
fn a_malformed_numeral_is_an_error() {
    assert_eq!(TokenType::from_string("9x"), TokenType::Error);
    assert_eq!(TokenType::from_string("1x"), TokenType::Error);
    assert_eq!(TokenType::from_string("1e"), TokenType::Error);
    assert_eq!(TokenType::from_string("1.5.2"), TokenType::Error);
    assert_eq!(TokenType::from_string("0x10"), TokenType::Error);
    assert_eq!(TokenType::from_string("1_000"), TokenType::Error);
}

#[test]
fn a_number_may_have_a_fraction_and_an_exponent() {
    assert_eq!(number_value(&TokenType::from_string("3.5")), 3.5);
    assert_eq!(number_value(&TokenType::from_string("1.")), 1.0);
    assert_eq!(number_value(&TokenType::from_string("1e5")), 100000.0);
    assert_eq!(number_value(&TokenType::from_string("1E5")), 100000.0);
    assert_eq!(number_value(&TokenType::from_string("25e-1")), 2.5);
    assert_eq!(number_value(&TokenType::from_string("2.5e+1")), 25.0);
    assert_eq!(number_value(&TokenType::from_string("1.e3")), 1000.0);
    assert_eq!(number_value(&TokenType::from_string("007")), 7.0);
}

#[test]
fn neither_letter_nor_digit_first_is_an_error() {
    assert_eq!(TokenType::from_string("+"), TokenType::Error);
    assert_eq!(TokenType::from_string("_x"), TokenType::Error);
    assert_eq!(TokenType::from_string(".5"), TokenType::Error);
    assert_eq!(TokenType::from_string("-1"), TokenType::Error);
    assert_eq!(TokenType::from_string(" "), TokenType::Error);
}

#[test]
fn letters_and_digits_of_other_scripts() {
    assert_eq!(TokenType::from_string("été"), TokenType::Ident("été".to_string()));
    assert_eq!(TokenType::from_string("京1"), TokenType::Ident("京1".to_string()));
    // numeric characters that are no decimal digits lead no numeral
    assert_eq!(TokenType::from_string("٣"), TokenType::Error);
    assert_eq!(TokenType::from_string("½"), TokenType::Error);
    assert_eq!(TokenType::from_string("٣x"), TokenType::Error);
}

#[test]
fn numeral_parse_keeps_the_text() {
    let numeral = Numeral::parse("12.50e3").unwrap();
    assert_eq!(numeral.as_str(), "12.50e3");
    assert_eq!(numeral.clone().as_str(), "12.50e3");
    assert_eq!(numeral.clone(), numeral);
}

#[test]
fn numeral_parse_rejects_what_is_no_numeral() {
    assert!(Numeral::parse("").is_none());
    assert!(Numeral::parse(".").is_none());
    assert!(Numeral::parse(".5").is_none());
    assert!(Numeral::parse("e5").is_none());
    assert!(Numeral::parse("+1").is_none());
    assert!(Numeral::parse("1e+").is_none());
    assert!(Numeral::parse("1e5x").is_none());
    assert!(Numeral::parse("1 ").is_none());
    assert!(Numeral::parse("inf").is_none());
    assert!(Numeral::parse("nan").is_none());
    assert!(Numeral::parse("1..2").is_none());
    assert!(Numeral::parse("1e5.2").is_none());
    assert!(Numeral::parse("1e++5").is_none());
}

fn extend(alphabet: &[char], words: &[String]) -> Vec<String> {
    let mut longer = Vec::new();
    for word in words {
        for c in alphabet {
            let mut next = word.clone();
            next.push(*c);
            longer.push(next);
        }
    }
    longer
}

#[test]
fn numerals_are_the_digit_led_texts_that_read_as_floats() {
    let alphabet = ['0', '7', '.', 'e', 'E', '+', '-', 'x', ' '];
    let mut words: Vec<String> = vec!["3".to_string(), "0".to_string()];
    let mut seen = 0;
    for _ in 0..6 {
        for word in &words {
            let reads = word.parse::<f64>().is_ok();
            assert_eq!(Numeral::parse(word).is_some(), reads, "{:?}", word);
            seen += 1;
        }
        words = extend(&alphabet, &words);
    }
    assert!(seen > 100000);
}

#[test]
fn every_numeral_has_a_value() {
    for text in ["0", "1", "10.25", "1e400", "1e-400", "123456789012345678901234567890", "5E0"] {
        let numeral = Numeral::parse(text).unwrap();
        assert!(numeral.as_str().parse::<f64>().is_ok());
    }
}
